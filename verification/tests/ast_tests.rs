use minilang::ast::{build_ast, parse_condition, parse_expr, Expectation, Node, ParseError};
use minilang::lexer::{tokenize, Comparison, Operator, Token, Type};

fn parse(src: &str) -> Result<Vec<Node>, ParseError> {
    build_ast(tokenize(src).expect("tokenize failed"))
}

#[test]
fn scenario_a_ast() {
    let ast = parse("let x: int = 5\n").unwrap();
    assert_eq!(
        ast,
        vec![Node::Variable {
            name: ("x".to_string(), (1, 5)),
            var_type: (Type::Int, (1, 8)),
            expr: (Box::new(Node::Int(5, (1, 14))), (1, 14)),
        }]
    );
}

#[test]
fn scenario_b_ast() {
    // the sub-expression before the operator is stored as rexpr
    let ast = parse("return a + b\n").unwrap();
    assert_eq!(
        ast,
        vec![Node::Return {
            expr: (
                Box::new(Node::BinaryExpr {
                    rexpr: (Box::new(Node::Ident("a".to_string(), (1, 8))), (0, 0)),
                    lexpr: (Box::new(Node::Ident("b".to_string(), (1, 12))), (0, 0)),
                    op: (Operator::Add, (1, 10)),
                }),
                (1, 8),
            ),
        }]
    );
}

#[test]
fn scenario_c_ast() {
    let ast = parse("foo(1, 2)\n").unwrap();
    assert_eq!(
        ast,
        vec![Node::Call {
            name: ("foo".to_string(), (1, 1)),
            parameters: (
                vec![Node::Int(1, (1, 5)), Node::Int(2, (1, 8))],
                (1, 5),
            ),
        }]
    );
}

#[test]
fn scenario_d_ast() {
    let ast = parse("if a == 1 {\n  return a\n}\n").unwrap();
    assert_eq!(
        ast,
        vec![Node::If {
            test: (
                Box::new(Node::Comparison {
                    rexpr: (Box::new(Node::Int(1, (1, 9))), (1, 9)),
                    lexpr: (Box::new(Node::Ident("a".to_string(), (1, 4))), (1, 4)),
                    op: (Comparison::Equal, (1, 6)),
                }),
                (1, 4),
            ),
            then_body: (
                vec![Node::Return {
                    expr: (Box::new(Node::Ident("a".to_string(), (2, 10))), (2, 10)),
                }],
                (0, 0),
            ),
            else_body: (vec![Node::Nop], (0, 0)),
        }]
    );
}

#[test]
fn scenario_e_ast() {
    let ast = parse("fn add(int a, int b): int {\n return a + b\n}\n").unwrap();
    assert_eq!(
        ast,
        vec![Node::Function {
            name: ("add".to_string(), (1, 4)),
            parameters: (
                vec![
                    ("a".to_string(), Type::Int, (1, 12)),
                    ("b".to_string(), Type::Int, (1, 19)),
                ],
                (1, 8),
            ),
            return_type: (Type::Int, (1, 23)),
            body: (
                vec![Node::Return {
                    expr: (
                        Box::new(Node::BinaryExpr {
                            rexpr: (Box::new(Node::Ident("a".to_string(), (2, 9))), (0, 0)),
                            lexpr: (Box::new(Node::Ident("b".to_string(), (2, 13))), (0, 0)),
                            op: (Operator::Add, (2, 11)),
                        }),
                        (2, 9),
                    ),
                }],
                (1, 28),
            ),
        }]
    );
}

#[test]
fn nested_call_parameters() {
    // commas inside nested parentheses do not split the outer list
    let ast = parse("foo(bar(1, 2), 3)\n").unwrap();
    assert_eq!(ast.len(), 1);
    match &ast[0] {
        Node::Call { name, parameters } => {
            assert_eq!(name.0, "foo");
            assert_eq!(parameters.0.len(), 2);
            match &parameters.0[0] {
                Node::Call { name, parameters } => {
                    assert_eq!(name.0, "bar");
                    assert_eq!(parameters.0.len(), 2);
                },
                other => panic!("expected nested call, got {:?}", other),
            }
            assert!(matches!(parameters.0[1], Node::Int(3, _)));
        },
        other => panic!("expected call, got {:?}", other),
    }
}

#[test]
fn call_with_no_parameters() {
    let ast = parse("foo()\n").unwrap();
    match &ast[0] {
        Node::Call { name, parameters } => {
            assert_eq!(name.0, "foo");
            assert!(parameters.0.is_empty());
        },
        other => panic!("expected call, got {:?}", other),
    }
}

#[test]
fn multiple_operators_nest_right() {
    // no precedence: the remainder after the first operator is reduced
    // recursively
    let ast = parse("return a + b * c\n").unwrap();
    match &ast[0] {
        Node::Return { expr } => match &*expr.0 {
            Node::BinaryExpr { rexpr, lexpr, op } => {
                assert_eq!(op.0, Operator::Add);
                assert!(matches!(&*rexpr.0, Node::Ident(s, _) if s == "a"));
                match &*lexpr.0 {
                    Node::BinaryExpr { rexpr, lexpr, op } => {
                        assert_eq!(op.0, Operator::Mul);
                        assert!(matches!(&*rexpr.0, Node::Ident(s, _) if s == "b"));
                        assert!(matches!(&*lexpr.0, Node::Ident(s, _) if s == "c"));
                    },
                    other => panic!("expected nested binary, got {:?}", other),
                }
            },
            other => panic!("expected binary, got {:?}", other),
        },
        other => panic!("expected return, got {:?}", other),
    }
}

#[test]
fn balanced_nested_body() {
    // the captured body is brace-balanced; the nested if keeps its own braces
    let ast = parse("fn f(): int {\nif a == 1 {\nreturn a\n}\nreturn b\n}\n").unwrap();
    assert_eq!(ast.len(), 1);
    match &ast[0] {
        Node::Function { body, .. } => {
            assert_eq!(body.0.len(), 2);
            assert!(matches!(body.0[0], Node::If { .. }));
            assert!(matches!(body.0[1], Node::Return { .. }));
        },
        other => panic!("expected function, got {:?}", other),
    }
}

#[test]
fn if_followed_by_else_is_dropped() {
    // the grammar drops an `if` whose closing brace is followed by `else`;
    // the `else` itself then fails to parse as an expression
    let r = parse("if a == 1 {\nreturn a\n} else\n");
    assert_eq!(
        r,
        Err(ParseError::Expected {
            what: Expectation::Value,
            got: Token::Keyword(minilang::lexer::Keyword::Else),
            at: (3, 3),
        })
    );
}

#[test]
fn blank_lines_produce_no_nodes() {
    let ast = parse("\n\n\n").unwrap();
    assert!(ast.is_empty());
}

#[test]
fn error_expected_identifier() {
    let r = parse("let 5: int = 5\n");
    assert_eq!(
        r,
        Err(ParseError::Expected {
            what: Expectation::Identifier,
            got: Token::Int(5),
            at: (1, 5),
        })
    );
}

#[test]
fn error_expected_colon() {
    let r = parse("let x int = 5\n");
    assert_eq!(
        r,
        Err(ParseError::Expected {
            what: Expectation::Colon,
            got: Token::Type(Type::Int),
            at: (1, 7),
        })
    );
}

#[test]
fn error_expected_equals() {
    let r = parse("let x: int 5\n");
    assert!(matches!(
        r,
        Err(ParseError::Expected { what: Expectation::Equals, got: Token::Int(5), .. })
    ));
}

#[test]
fn error_expected_type() {
    let r = parse("fn f(x): int {\n}\n");
    assert!(matches!(
        r,
        Err(ParseError::Expected { what: Expectation::TypeName, .. })
    ));
}

#[test]
fn error_expected_open_paren() {
    let r = parse("fn f: int {\n}\n");
    assert!(matches!(
        r,
        Err(ParseError::Expected { what: Expectation::OpenParen, .. })
    ));
}

#[test]
fn error_expected_open_brace() {
    let r = parse("fn f(): int x\n");
    assert!(matches!(
        r,
        Err(ParseError::Expected { what: Expectation::OpenBrace, .. })
    ));
}

#[test]
fn error_expected_value() {
    let r = parse("return ;\n");
    assert!(matches!(
        r,
        Err(ParseError::Expected { what: Expectation::Value, got: Token::Semi, .. })
    ));
}

#[test]
fn error_unexpected_end_of_input() {
    // an expression run must end in a newline
    assert_eq!(parse("return 5"), Err(ParseError::UnexpectedEndOfInput));
    // a condition needs a comparison
    assert_eq!(
        parse("if a {\nreturn a\n}\n"),
        Err(ParseError::UnexpectedEndOfInput)
    );
    // a binary expression needs an operand after the operator
    assert_eq!(parse("return a +\n"), Err(ParseError::UnexpectedEndOfInput));
}

#[test]
fn function_with_no_parameters() {
    let ast = parse("fn f(): void {\nreturn 0\n}\n").unwrap();
    match &ast[0] {
        Node::Function { name, parameters, return_type, .. } => {
            assert_eq!(name.0, "f");
            assert!(parameters.0.is_empty());
            assert_eq!(return_type.0, Type::Void);
        },
        other => panic!("expected function, got {:?}", other),
    }
}

#[test]
fn fn_parameters_without_comma() {
    // the comma between parameters is optional
    let ast = parse("fn g(int a int b): int {\nreturn a\n}\n").unwrap();
    match &ast[0] {
        Node::Function { parameters, .. } => {
            assert_eq!(parameters.0.len(), 2);
            assert_eq!(parameters.0[0].0, "a");
            assert_eq!(parameters.0[1].0, "b");
        },
        other => panic!("expected function, got {:?}", other),
    }
}

#[test]
fn string_literal_statement() {
    let ast = parse("\"hello\"\n").unwrap();
    assert_eq!(ast, vec![Node::Str("hello".to_string(), (1, 7))]);
}

#[test]
fn parse_expr_on_a_token_run() {
    let toks = tokenize("a + b\n").unwrap();
    // the run stops before the newline
    let n = parse_expr(&toks, 0, 3).unwrap();
    assert!(matches!(n, Node::BinaryExpr { .. }));
    assert_eq!(parse_expr(&toks, 0, 0), Err(ParseError::UnexpectedEndOfInput));
}

#[test]
fn parse_condition_on_a_token_run() {
    let toks = tokenize("x != 2\n").unwrap();
    let n = parse_condition(&toks, 0, 3).unwrap();
    match n {
        Node::Comparison { op, lexpr, rexpr } => {
            assert_eq!(op.0, Comparison::NotEqual);
            assert!(matches!(&*lexpr.0, Node::Ident(s, _) if s == "x"));
            assert!(matches!(&*rexpr.0, Node::Int(2, _)));
        },
        other => panic!("expected comparison, got {:?}", other),
    }
}
