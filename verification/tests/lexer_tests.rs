use minilang::lexer::{tokenize, Comparison, Keyword, LexError, Operator, Token, Type};

fn token_kinds(src: &str) -> Vec<Token> {
    tokenize(src)
        .expect("tokenize failed")
        .into_iter()
        .map(|p| p.0)
        .collect()
}

#[test]
fn scenario_a_tokens() {
    assert_eq!(
        token_kinds("let x: int = 5\n"),
        vec![
            Token::Keyword(Keyword::Let),
            Token::Ident("x".to_string()),
            Token::Colon,
            Token::Type(Type::Int),
            Token::Equal,
            Token::Int(5),
            Token::Newline,
        ]
    );
}

#[test]
fn scenario_a_token_positions() {
    let toks = tokenize("let x: int = 5\n").unwrap();
    let positions: Vec<(usize, usize)> = toks.iter().map(|p| p.1).collect();
    assert_eq!(
        positions,
        vec![(1, 1), (1, 5), (1, 6), (1, 8), (1, 12), (1, 14), (1, 15)]
    );
}

#[test]
fn round_trip_keywords_and_punctuation() {
    assert_eq!(
        token_kinds("return ( ) == fn"),
        vec![
            Token::Keyword(Keyword::Return),
            Token::OpenParen,
            Token::CloseParen,
            Token::Comparison(Comparison::Equal),
            Token::Keyword(Keyword::Function),
        ]
    );
}

#[test]
fn newline_count_matches_line_feeds() {
    let toks = tokenize("one\ntwo\n// comment\nlast\n").unwrap();
    let newlines = toks
        .iter()
        .filter(|p| matches!(p.0, Token::Newline))
        .count();
    assert_eq!(newlines, 4);
}

#[test]
fn newline_count_inside_string() {
    // a physical newline inside a string literal still emits a Newline token
    let toks = tokenize("\"a\nb\"\n").unwrap();
    let newlines = toks
        .iter()
        .filter(|p| matches!(p.0, Token::Newline))
        .count();
    assert_eq!(newlines, 2);
    assert!(toks
        .iter()
        .any(|p| p.0 == Token::Str("a\nb".to_string())));
}

#[test]
fn string_literal_with_escape() {
    assert_eq!(
        token_kinds("\"one\\ntwo\"\n"),
        vec![Token::Str("one\ntwo".to_string()), Token::Newline]
    );
}

#[test]
fn string_literal_closes_at_end_of_input() {
    assert_eq!(
        token_kinds("\"hi\""),
        vec![Token::Str("hi".to_string())]
    );
}

#[test]
fn comment_discards_to_end_of_line() {
    assert_eq!(
        token_kinds("x // ignored ( { junk\ny\n"),
        vec![
            Token::Ident("x".to_string()),
            Token::Newline,
            Token::Ident("y".to_string()),
            Token::Newline,
        ]
    );
}

#[test]
fn comparison_combines_without_spaces() {
    assert_eq!(
        token_kinds("a==b"),
        vec![
            Token::Ident("a".to_string()),
            Token::Comparison(Comparison::Equal),
            Token::Ident("b".to_string()),
        ]
    );
}

#[test]
fn not_equal_combines() {
    assert_eq!(
        token_kinds("1 != 2\n"),
        vec![
            Token::Int(1),
            Token::Comparison(Comparison::NotEqual),
            Token::Int(2),
            Token::Newline,
        ]
    );
}

#[test]
fn operators_and_brackets() {
    assert_eq!(
        token_kinds("a + b * c [ ] ; < > &\n"),
        vec![
            Token::Ident("a".to_string()),
            Token::Operator(Operator::Add),
            Token::Ident("b".to_string()),
            Token::Operator(Operator::Mul),
            Token::Ident("c".to_string()),
            Token::OpenBracket,
            Token::CloseBracket,
            Token::Semi,
            Token::Comparison(Comparison::Smaller),
            Token::Comparison(Comparison::Bigger),
            Token::Operator(Operator::And),
            Token::Newline,
        ]
    );
}

#[test]
fn minus_is_always_subtraction() {
    // there are no negative literals: a leading `-` is the operator
    assert_eq!(
        token_kinds("-5\n"),
        vec![Token::Operator(Operator::Sub), Token::Int(5), Token::Newline]
    );
}

#[test]
fn int_classification_idempotent() {
    // leading zeros are lost, but re-tokenizing gives the same value
    assert_eq!(
        token_kinds("007\n"),
        vec![Token::Int(7), Token::Newline]
    );
    assert_eq!(token_kinds("7"), vec![Token::Int(7)]);
}

#[test]
fn keywords_are_reserved() {
    // a keyword is flushed as soon as it is complete, so no identifier ever
    // begins with one
    assert_eq!(
        token_kinds("ifx\n"),
        vec![
            Token::Keyword(Keyword::If),
            Token::Ident("x".to_string()),
            Token::Newline,
        ]
    );
    assert_eq!(
        token_kinds("foo\n"),
        vec![Token::Ident("foo".to_string()), Token::Newline]
    );
}

#[test]
fn integer_overflow_is_reported() {
    // far beyond what usize can hold
    let r = tokenize("99999999999999999999999\n");
    assert_eq!(r, Err(LexError::IntegerOverflow((1, 1))));
}

#[test]
fn large_integer_that_fits() {
    assert_eq!(
        token_kinds("18446744073709551615\n"),
        vec![Token::Int(usize::MAX), Token::Newline]
    );
}

#[test]
fn use_keyword_and_types() {
    assert_eq!(
        token_kinds("use void char while else\n"),
        vec![
            Token::Keyword(Keyword::Use),
            Token::Type(Type::Void),
            Token::Type(Type::Char),
            Token::Keyword(Keyword::While),
            Token::Keyword(Keyword::Else),
            Token::Newline,
        ]
    );
}

#[test]
fn empty_input_gives_no_tokens() {
    assert_eq!(token_kinds(""), Vec::<Token>::new());
}
