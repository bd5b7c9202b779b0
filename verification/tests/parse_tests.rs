use zerox::parse::{BinaryOperator, Expr, LiteralValue, Parser, UnaryOperator};
use zerox::Span;

#[test]
fn test_parse_primary() {
    let mut l = zerox::Lexer::new("true false nil 1 (1) \"1\"");
    let tokens = l.lex().unwrap();
    let mut p = Parser::new(tokens);

    assert_eq!(
        Some(Expr::Literal {
            value: LiteralValue::True
        }),
        p.parse_primary()
    );
    assert_eq!(
        Some(Expr::Literal {
            value: LiteralValue::False
        }),
        p.parse_primary()
    );
    assert_eq!(
        Some(Expr::Literal {
            value: LiteralValue::Nil
        }),
        p.parse_primary()
    );
    assert_eq!(
        Some(Expr::Literal {
            value: LiteralValue::Number(Span::new(15, 16))
        }),
        p.parse_primary()
    );
    assert_eq!(
        Some(Expr::Group {
            inner: Box::new(Expr::Literal {
                value: LiteralValue::Number(Span::new(18, 19))
            })
        }),
        p.parse_primary()
    );

    assert_eq!(
        Some(Expr::Literal {
            value: LiteralValue::String(Span::new(21, 24))
        }),
        p.parse_primary()
    );
}

#[test]
fn test_parse_unary() {
    let mut l = zerox::Lexer::new("-1 (!2)");
    let tokens = l.lex().unwrap();
    let mut p = Parser::new(tokens);

    assert_eq!(
        Some(Expr::Unary {
            op: UnaryOperator::Negative,
            expr: Box::new(Expr::Literal {
                value: LiteralValue::Number(Span::new(1, 2))
            })
        }),
        p.parse_unary()
    );
    assert_eq!(
        Some(Expr::Group {
            inner: Box::new(Expr::Unary {
                op: UnaryOperator::Not,
                expr: Box::new(Expr::Literal {
                    value: LiteralValue::Number(Span::new(5, 6))
                })
            })
        }),
        p.parse_unary()
    );
}

#[test]
fn test_parse_factory() {
    let mut l = zerox::Lexer::new("1 * (-2)");
    let tokens = l.lex().unwrap();
    let mut p = Parser::new(tokens);

    assert_eq!(
        Some(Expr::Binary {
            left: Box::new(Expr::Literal {
                value: LiteralValue::Number(Span::new(0, 1))
            }),
            op: BinaryOperator::Multiply,
            right: Box::new(Expr::Group {
                inner: Box::new(Expr::Unary {
                    op: UnaryOperator::Negative,
                    expr: Box::new(Expr::Literal {
                        value: LiteralValue::Number(Span::new(6, 7))
                    })
                })
            })
        }),
        p.parse_factory()
    );
}

#[test]
fn test_parse_term() {
    let mut l = zerox::Lexer::new("1 * (-2) + -3 / -4");
    let tokens = l.lex().unwrap();
    let mut p = Parser::new(tokens);

    assert_eq!(
        Some(Expr::Binary {
            left: Box::new(Expr::Binary {
                left: Box::new(Expr::Literal {
                    value: LiteralValue::Number(Span::new(0, 1))
                }),
                op: BinaryOperator::Multiply,
                right: Box::new(Expr::Group {
                    inner: Box::new(Expr::Unary {
                        op: UnaryOperator::Negative,
                        expr: Box::new(Expr::Literal {
                            value: LiteralValue::Number(Span::new(6, 7))
                        })
                    })
                })
            }),
            op: BinaryOperator::Add,
            right: Box::new(Expr::Binary {
                left: Box::new(Expr::Unary {
                    op: UnaryOperator::Negative,
                    expr: Box::new(Expr::Literal {
                        value: LiteralValue::Number(Span::new(12, 13))
                    })
                }),
                op: BinaryOperator::Divide,
                right: Box::new(Expr::Unary {
                    op: UnaryOperator::Negative,
                    expr: Box::new(Expr::Literal {
                        value: LiteralValue::Number(Span::new(17, 18))
                    })
                }),
            })
        }),
        p.parse_term()
    );
}

#[test]
fn test_parse_comparison() {
    let mut l = zerox::Lexer::new("-1 >= (2)");
    let tokens = l.lex().unwrap();
    let mut p = Parser::new(tokens);

    assert_eq!(
        Some(Expr::Binary {
            left: Box::new(Expr::Unary {
                op: UnaryOperator::Negative,
                expr: Box::new(Expr::Literal {
                    value: LiteralValue::Number(Span::new(1, 2))
                })
            }),
            op: BinaryOperator::GreaterEqual,
            right: Box::new(Expr::Group {
                inner: Box::new(Expr::Literal {
                    value: LiteralValue::Number(Span::new(7, 8))
                })
            })
        }),
        p.parse_comparison()
    );
}

#[test]
fn test_parse_equality() {
    let mut l = zerox::Lexer::new("true == !false");
    let tokens = l.lex().unwrap();
    let mut p = Parser::new(tokens);

    assert_eq!(
        Some(Expr::Binary {
            left: Box::new(Expr::Literal {
                value: LiteralValue::True
            }),
            op: BinaryOperator::Equal,
            right: Box::new(Expr::Unary {
                op: UnaryOperator::Not,
                expr: Box::new(Expr::Literal {
                    value: LiteralValue::False
                })
            })
        }),
        p.parse_equality()
    );
}
