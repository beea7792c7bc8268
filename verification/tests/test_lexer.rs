use risp::lexer::{Content, Token};

fn places(tokens: &Vec<Token>) -> Vec<(usize, usize)> {
    let mut out = Vec::new();
    for token in tokens.iter() {
        let place = match token {
            Token::Integer(c) => (c.line, c.ch),
            Token::Symbol(c) => (c.line, c.ch),
            Token::LParen(c) => (c.line, c.ch),
            Token::RParen(c) => (c.line, c.ch),
        };
        out.push(place);
    }
    out
}

#[test]
fn test_add() {
    let tokens = Token::tokenize("(+ 1 2)");
    assert_eq!(
        tokens,
        vec![
            Token::LParen(Content::new((), 0, 1)),
            Token::Symbol(Content::new("+".to_string(), 1, 1)),
            Token::Integer(Content::new(1, 3, 1)),
            Token::Integer(Content::new(2, 5, 1)),
            Token::RParen(Content::new((), 6, 1))
        ]
    )
}

#[test]
fn test_lexer_test_add() {
    let tokens = Token::tokenize("(+ 1 2)");
    assert_eq!(
        tokens,
        vec![
            Token::LParen(Content::new((), 1, 0)),
            Token::Symbol(Content::new("+".to_string(), 2, 0)),
            Token::Integer(Content::new(1, 4, 0)),
            Token::Integer(Content::new(2, 6, 0)),
            Token::RParen(Content::new((), 7, 0))
        ]
    );
    assert_eq!(places(&tokens), vec![(0, 1), (0, 2), (0, 4), (0, 6), (0, 7)]);
}

#[test]
fn test_lexer_test_area_of_a_circle() {
    let program = "
    (
     (let r 10)
     (let pi 314)
     (* pi (* r r))
    )
    ";
    let tokens = Token::tokenize(program);
    assert_eq!(
        tokens,
        vec![
            Token::LParen(Content::new((), 5, 1)),
            Token::LParen(Content::new((), 6, 2)),
            Token::Symbol(Content::new("let".to_string(), 7, 2)),
            Token::Symbol(Content::new("r".to_string(), 11, 2)),
            Token::Integer(Content::new(10, 13, 2)),
            Token::RParen(Content::new((), 15, 2)),
            Token::LParen(Content::new((), 6, 3)),
            Token::Symbol(Content::new("let".to_string(), 7, 3)),
            Token::Symbol(Content::new("pi".to_string(), 1, 3)),
            Token::Integer(Content::new(314, 14, 3)),
            Token::RParen(Content::new((), 17, 3)),
            Token::LParen(Content::new((), 6, 4)),
            Token::Symbol(Content::new("*".to_string(), 7, 4)),
            Token::Symbol(Content::new("pi".to_string(), 9, 4)),
            Token::LParen(Content::new((), 12, 4)),
            Token::Symbol(Content::new("*".to_string(), 13, 4)),
            Token::Symbol(Content::new("r".to_string(), 15, 4)),
            Token::Symbol(Content::new("r".to_string(), 17, 4)),
            Token::RParen(Content::new((), 18, 4)),
            Token::RParen(Content::new((), 19, 4)),
            Token::RParen(Content::new((), 5, 5))
        ]
    );
}

#[test]
fn test_area_of_a_circle() {
    let program = "
    (
     (define r 10)
     (define pi 314)
     (* pi (* r r))
    )
    ";
    let tokens = Token::tokenize(program);
    assert_eq!(
        tokens,
        vec![
            Token::LParen(Content::new((), 5, 1)),
            Token::LParen(Content::new((), 6, 2)),
            Token::Symbol(Content::new("define".to_string(), 7, 2)),
            Token::Symbol(Content::new("r".to_string(), 14, 2)),
            Token::Integer(Content::new(10, 16, 2)),
            Token::RParen(Content::new((), 18, 2)),
            Token::LParen(Content::new((), 6, 3)),
            Token::Symbol(Content::new("define".to_string(), 7, 3)),
            Token::Symbol(Content::new("pi".to_string(), 14, 3)),
            Token::Integer(Content::new(314, 17, 3)),
            Token::RParen(Content::new((), 20, 3)),
            Token::LParen(Content::new((), 6, 4)),
            Token::Symbol(Content::new("*".to_string(), 7, 4)),
            Token::Symbol(Content::new("pi".to_string(), 9, 4)),
            Token::LParen(Content::new((), 12, 4)),
            Token::Symbol(Content::new("*".to_string(), 13, 4)),
            Token::Symbol(Content::new("r".to_string(), 15, 4)),
            Token::Symbol(Content::new("r".to_string(), 17, 4)),
            Token::RParen(Content::new((), 18, 4)),
            Token::RParen(Content::new((), 19, 4)),
            Token::RParen(Content::new((), 5, 5))
        ]
    );
}

#[test]
fn test_let_withou_space() {
    let program = "(let((x 10)))";
    let tokens = Token::tokenize(program);

    assert_eq!(
        tokens,
        vec![
            Token::LParen(Content::new((), 1, 0)),
            Token::Symbol(Content::new("let".to_string(), 2, 0)),
            Token::LParen(Content::new((), 5, 0)),
            Token::LParen(Content::new((), 6, 0)),
            Token::Symbol(Content::new("x".to_string(), 7, 0)),
            Token::Integer(Content::new(10, 9, 0)),
            Token::RParen(Content::new((), 11, 0)),
            Token::RParen(Content::new((), 12, 0)),
            Token::RParen(Content::new((), 13, 0))
        ]
    );
}

#[test]
fn test_debug_token_debug_trait() {
    assert_eq!(Token::LParen(Content::new((), 0, 0)).to_string(), "0:0 LParen");
    assert_eq!(
        Token::Symbol(Content::new("let".to_string(), 0, 0)).to_string(),
        "0:0 Symbol(let)"
    );
    assert_eq!(Token::Integer(Content::new(10, 0, 0)).to_string(), "0:0 Int(10)");
    assert_eq!(Token::RParen(Content::new((), 0, 0)).to_string(), "0:0 RParen");
}

#[test]
fn test_debug_token_display_trait() {
    assert_eq!(Token::LParen(Content::new((), 0, 0)).to_string(), "0:0 LParen");
    assert_eq!(
        Token::Symbol(Content::new("let".to_string(), 0, 0)).to_string(),
        "0:0 Symbol(let)"
    );
    assert_eq!(Token::Integer(Content::new(10, 0, 0)).to_string(), "0:0 Int(10)");
    assert_eq!(Token::RParen(Content::new((), 0, 0)).to_string(), "0:0 RParen");
}

#[test]
fn test_token_text_shows_line_before_column() {
    assert_eq!(Token::Integer(Content::new(-7, 12, 3)).to_string(), "3:12 Int(-7)");
    assert_eq!(Token::RParen(Content::new((), 40, 100)).to_string(), "100:40 RParen");
}

#[test]
fn test_let_withou_space_places() {
    let tokens = Token::tokenize("(let((x 10)))");
    assert_eq!(
        places(&tokens),
        vec![(0, 1), (0, 2), (0, 5), (0, 6), (0, 7), (0, 9), (0, 11), (0, 12), (0, 13)]
    );
}

#[test]
fn test_places_across_lines() {
    let tokens = Token::tokenize("\n    (\n     (let r 10)\n  x");
    assert_eq!(
        places(&tokens),
        vec![(1, 5), (2, 6), (2, 7), (2, 11), (2, 13), (2, 15), (3, 3)]
    );
}

#[test]
fn test_tokenize_empty_and_blank() {
    assert_eq!(Token::tokenize(""), vec![]);
    assert_eq!(Token::tokenize("   "), vec![]);
    assert_eq!(Token::tokenize("\n\n  \n"), vec![]);
}

#[test]
fn test_tokenize_never_checks_balance() {
    let tokens = Token::tokenize(")))(");
    assert_eq!(
        tokens,
        vec![
            Token::RParen(Content::new((), 1, 0)),
            Token::RParen(Content::new((), 2, 0)),
            Token::RParen(Content::new((), 3, 0)),
            Token::LParen(Content::new((), 4, 0))
        ]
    );
    assert_eq!(places(&tokens), vec![(0, 1), (0, 2), (0, 3), (0, 4)]);
}

#[test]
fn test_tokenize_integers_and_symbols() {
    let tokens = Token::tokenize("-5 +7 007 - + 1a 9223372036854775807 9223372036854775808 -9223372036854775808 --1");
    assert_eq!(
        tokens,
        vec![
            Token::Integer(Content::new(-5, 0, 0)),
            Token::Integer(Content::new(7, 0, 0)),
            Token::Integer(Content::new(7, 0, 0)),
            Token::Symbol(Content::new("-".to_string(), 0, 0)),
            Token::Symbol(Content::new("+".to_string(), 0, 0)),
            Token::Symbol(Content::new("1a".to_string(), 0, 0)),
            Token::Integer(Content::new(i64::MAX, 0, 0)),
            Token::Symbol(Content::new("9223372036854775808".to_string(), 0, 0)),
            Token::Integer(Content::new(i64::MIN, 0, 0)),
            Token::Symbol(Content::new("--1".to_string(), 0, 0))
        ]
    );
}

#[test]
fn test_tokenize_differs_from_its_input_kind() {
    let tokens = Token::tokenize("12");
    assert_ne!(tokens, vec![Token::Symbol(Content::new("12".to_string(), 1, 0))]);
    assert_eq!(tokens, vec![Token::Integer(Content::new(12, 1, 0))]);
}

#[test]
fn test_tokenize_quoted_words_stay_symbols() {
    let tokens = Token::tokenize("(\"abc\" 'd')");
    assert_eq!(
        tokens,
        vec![
            Token::LParen(Content::new((), 1, 0)),
            Token::Symbol(Content::new("\"abc\"".to_string(), 2, 0)),
            Token::Symbol(Content::new("'d'".to_string(), 8, 0)),
            Token::RParen(Content::new((), 11, 0))
        ]
    );
}

#[test]
fn test_tokenize_carriage_return_before_line_feed() {
    let tokens = Token::tokenize("ab\r\ncd\r");
    assert_eq!(
        tokens,
        vec![
            Token::Symbol(Content::new("ab".to_string(), 1, 0)),
            Token::Symbol(Content::new("cd\r".to_string(), 1, 1))
        ]
    );
    assert_eq!(places(&tokens), vec![(0, 1), (1, 1)]);
}

#[test]
fn test_tokenize_tab_is_part_of_a_word() {
    let tokens = Token::tokenize("a\tb c");
    assert_eq!(
        tokens,
        vec![
            Token::Symbol(Content::new("a\tb".to_string(), 1, 0)),
            Token::Symbol(Content::new("c".to_string(), 5, 0))
        ]
    );
    assert_eq!(places(&tokens), vec![(0, 1), (0, 5)]);
}

#[test]
fn test_content_equality_ignores_place() {
    assert_eq!(Content::new(5, 1, 2), Content::new(5, 30, 40));
    assert_ne!(Content::new(5, 1, 2), Content::new(6, 1, 2));
}

#[test]
fn test_content_new_keeps_fields() {
    let c = Content::new("x".to_string(), 3, 4);
    assert_eq!(c.content, "x");
    assert_eq!(c.ch, 3);
    assert_eq!(c.line, 4);
}
