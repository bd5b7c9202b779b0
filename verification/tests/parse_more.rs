use zerox::cli::{choose_mode, Mode};
use zerox::lex::TokenKind;
use zerox::parse::{BinaryOperator, Expr, LiteralValue, Parser, Stmt, UnaryOperator};
use zerox::{Error, Lexer, Span};

fn parser(src: &str) -> Parser {
    let mut l = Lexer::new(src);
    Parser::new(l.lex().unwrap())
}

fn program(src: &str) -> Result<Vec<Stmt>, Error> {
    parser(src).parse()
}

fn parse_error(src: &str) -> String {
    match program(src) {
        Err(Error::ParseError(m)) => m,
        other => panic!("expected a parse error, got {:?}", other),
    }
}

fn num(a: usize, b: usize) -> Expr {
    Expr::Literal { value: LiteralValue::Number(Span::new(a, b)) }
}

fn var(a: usize, b: usize) -> Expr {
    Expr::Variable { ident: Span::new(a, b) }
}

#[test]
fn subtraction_associates_to_the_left() {
    assert_eq!(
        parser("1 - 2 - 3").parse_expression(),
        Some(Expr::Binary {
            left: Box::new(Expr::Binary {
                left: Box::new(num(0, 1)),
                op: BinaryOperator::Minus,
                right: Box::new(num(4, 5)),
            }),
            op: BinaryOperator::Minus,
            right: Box::new(num(8, 9)),
        })
    );
}

#[test]
fn and_binds_tighter_than_or() {
    assert_eq!(
        parser("a or b and c").parse_expression(),
        Some(Expr::Binary {
            left: Box::new(var(0, 1)),
            op: BinaryOperator::Or,
            right: Box::new(Expr::Binary {
                left: Box::new(var(5, 6)),
                op: BinaryOperator::And,
                right: Box::new(var(11, 12)),
            }),
        })
    );
}

#[test]
fn assignment_associates_to_the_right() {
    assert_eq!(
        parser("a = b = 1").parse_expression(),
        Some(Expr::Assign {
            ident: Span::new(0, 1),
            expr: Box::new(Expr::Assign { ident: Span::new(4, 5), expr: Box::new(num(8, 9)) }),
        })
    );
}

#[test]
fn assignment_to_a_non_variable_fails() {
    assert_eq!(parser("1 = 2").parse_expression(), None);
}

#[test]
fn calls_take_argument_lists() {
    assert_eq!(
        parser("f(1, x)").parse_expression(),
        Some(Expr::Call { callee: Box::new(var(0, 1)), args: vec![num(2, 3), var(5, 6)] })
    );
    assert_eq!(
        parser("f()").parse_expression(),
        Some(Expr::Call { callee: Box::new(var(0, 1)), args: vec![] })
    );
    assert_eq!(parser("f(1 2)").parse_expression(), None);
}

#[test]
fn a_literal_is_not_called() {
    let mut p = parser("2 (3)");
    assert_eq!(p.parse_call(), Some(num(0, 1)));
    assert_eq!(p.state().map(|(i, t)| (i, t.kind)), Some((1, TokenKind::LPAREN)));
}

#[test]
fn comparison_and_equality_operators() {
    assert_eq!(
        parser("1 < 2 != 3 <= 4").parse_expression(),
        Some(Expr::Binary {
            left: Box::new(Expr::Binary {
                left: Box::new(num(0, 1)),
                op: BinaryOperator::Less,
                right: Box::new(num(4, 5)),
            }),
            op: BinaryOperator::NotEqual,
            right: Box::new(Expr::Binary {
                left: Box::new(num(9, 10)),
                op: BinaryOperator::LessEqual,
                right: Box::new(num(14, 15)),
            }),
        })
    );
}

#[test]
fn var_and_print_statements() {
    assert_eq!(
        program("var x = 1; var y; print x;").unwrap(),
        vec![
            Stmt::VarDeclStmt { ident: Span::new(4, 5), init_expr: Some(num(8, 9)) },
            Stmt::VarDeclStmt { ident: Span::new(15, 16), init_expr: None },
            Stmt::PrintStmt(var(24, 25)),
        ]
    );
}

#[test]
fn if_else_and_while() {
    assert_eq!(
        program("if (a) b; else { c; } while (d) e;").unwrap(),
        vec![
            Stmt::IfStmt {
                cond: var(4, 5),
                then_branch: Box::new(Stmt::ExprStmt(var(7, 8))),
                else_branch: Some(Box::new(Stmt::BlockStmt {
                    stmts: vec![Stmt::ExprStmt(var(17, 18))],
                })),
            },
            Stmt::WhileStmt { cond: var(29, 30), body: Box::new(Stmt::ExprStmt(var(32, 33))) },
        ]
    );
}

#[test]
fn for_is_read_as_while() {
    assert_eq!(
        program("for (var i = 0; i < 3; i = i + 1) print i;").unwrap(),
        vec![Stmt::BlockStmt {
            stmts: vec![
                Stmt::VarDeclStmt { ident: Span::new(9, 10), init_expr: Some(num(13, 14)) },
                Stmt::WhileStmt {
                    cond: Expr::Binary {
                        left: Box::new(var(16, 17)),
                        op: BinaryOperator::Less,
                        right: Box::new(num(20, 21)),
                    },
                    body: Box::new(Stmt::BlockStmt {
                        stmts: vec![
                            Stmt::PrintStmt(var(40, 41)),
                            Stmt::ExprStmt(Expr::Assign {
                                ident: Span::new(23, 24),
                                expr: Box::new(Expr::Binary {
                                    left: Box::new(var(27, 28)),
                                    op: BinaryOperator::Add,
                                    right: Box::new(num(31, 32)),
                                }),
                            }),
                        ],
                    }),
                },
            ],
        }]
    );
}

#[test]
fn empty_for_clauses_loop_forever() {
    assert_eq!(
        program("for (;;) x;").unwrap(),
        vec![Stmt::WhileStmt {
            cond: Expr::Literal { value: LiteralValue::True },
            body: Box::new(Stmt::ExprStmt(var(9, 10))),
        }]
    );
}

#[test]
fn function_declarations() {
    assert_eq!(
        program("fun add(a, b) { print a + b; }").unwrap(),
        vec![Stmt::FunDeclStmt {
            ident: Span::new(4, 7),
            params: vec![Span::new(8, 9), Span::new(11, 12)],
            body: Box::new(Stmt::BlockStmt {
                stmts: vec![Stmt::PrintStmt(Expr::Binary {
                    left: Box::new(var(22, 23)),
                    op: BinaryOperator::Add,
                    right: Box::new(var(26, 27)),
                })],
            }),
        }]
    );
    assert_eq!(
        program("fun f() {}").unwrap(),
        vec![Stmt::FunDeclStmt {
            ident: Span::new(4, 5),
            params: vec![],
            body: Box::new(Stmt::BlockStmt { stmts: vec![] }),
        }]
    );
}

#[test]
fn parse_errors_carry_the_message() {
    assert_eq!(parse_error("var 1;"), "expect identifier after 'var'");
    assert_eq!(parse_error("var x = 1"), "expect ';' for varieble declaration");
    assert_eq!(parse_error("var x 1;"), "expect ';' for varieble declaration");
    assert_eq!(parse_error("print 1 2;"), "expect ';' after expression");
    assert_eq!(parse_error("fun (a) {}"), "expect identifier after 'fun'");
    assert_eq!(parse_error("fun f a) {}"), "expect '(' after identifier");
    assert_eq!(parse_error("fun f(a, 1) {}"), "expect identer after ','");
    assert_eq!(parse_error("fun f(a b) {}"), "unexpect character");
    assert_eq!(parse_error("fun f(a) print a;"), "function declaration requires \"{ ... }\" as body");
    assert_eq!(parse_error("if x) y;"), "expect '(' after 'if'");
    assert_eq!(parse_error("if (x y;"), "expect ')' for closing if condition expression");
    assert_eq!(parse_error("while x) y;"), "expect '(' after 'while'");
    assert_eq!(parse_error("while (x y;"), "expect ')' for closing while condition expression");
    assert_eq!(parse_error("for x;;) y;"), "expect '(' after 'for'");
    assert_eq!(parse_error("for (;x y) z;"), "expect ';' to end condtition expression in 'for' clauses");
    assert_eq!(parse_error("for (;;x y z;"), "expect ')' to close 'for' clauses");
    assert_eq!(parse_error(")"), "Unknown syntax.");
}

#[test]
fn unclosed_block_reports_the_missing_brace() {
    assert_eq!(parse_error("{ x; ;"), "expect '}' after block");
}

#[test]
fn empty_program_parses_to_nothing() {
    assert_eq!(program("").unwrap(), vec![]);
    assert_eq!(program("// only a comment").unwrap_err().to_string_like(), "parse error\nUnknown syntax.");
}

trait Describe {
    fn to_string_like(&self) -> String;
}

impl Describe for Error {
    fn to_string_like(&self) -> String {
        self.describe()
    }
}

#[test]
fn unary_operators_nest() {
    assert_eq!(
        parser("!-x").parse_unary(),
        Some(Expr::Unary {
            op: UnaryOperator::Not,
            expr: Box::new(Expr::Unary { op: UnaryOperator::Negative, expr: Box::new(var(2, 3)) }),
        })
    );
}

#[test]
fn state_advance_and_peek_agree() {
    let mut p = parser("a b");
    assert_eq!(p.state().map(|(i, t)| (i, t.kind)), Some((0, TokenKind::IDENTIFIER)));
    assert_eq!(p.peek().map(|t| t.span), Some(Span::new(0, 1)));
    assert_eq!(p.advance().map(|t| t.span), Some(Span::new(0, 1)));
    assert_eq!(p.state().map(|(i, t)| (i, t.span)), Some((1, Span::new(2, 3))));
    p.advance();
    p.advance();
    assert!(p.state().is_none());
    assert!(p.advance().is_none());
}

#[test]
fn operator_conversions() {
    assert_eq!(UnaryOperator::try_from(TokenKind::MINUS), Ok(UnaryOperator::Negative));
    assert_eq!(UnaryOperator::try_from(TokenKind::BANG), Ok(UnaryOperator::Not));
    assert_eq!(UnaryOperator::try_from(TokenKind::PLUS), Err("expect unary operator"));
    assert_eq!(BinaryOperator::try_from(TokenKind::SLASH), Ok(BinaryOperator::Divide));
    assert_eq!(BinaryOperator::try_from(TokenKind::OR), Err("expected binary operator"));
}

#[test]
fn clones_are_equal() {
    let stmts = program("fun f(a) { if (a) print a; else { a = f(a - 1); } }").unwrap();
    let copy: Vec<Stmt> = stmts.iter().map(|s| s.clone()).collect();
    assert_eq!(stmts, copy);
}

#[test]
fn error_descriptions() {
    assert_eq!(Error::LexError("x".to_string()).describe(), "lex error\nx");
    assert_eq!(Error::CLIErrorr("u".to_string()).describe(), "cli error\nu");
    assert_eq!(Error::RuntimeError("r".to_string()).describe(), "eval error\nr");
    assert_eq!(Error::CogegenError("c".to_string()).describe(), "code gen error\nc");
    let io = Error::from(std::io::Error::new(std::io::ErrorKind::Other, "disk"));
    assert_eq!(io.describe(), "io error\ndisk");
}

#[test]
fn command_line_modes() {
    assert_eq!(choose_mode(&vec![]).unwrap(), Mode::Prompt);
    assert_eq!(choose_mode(&vec!["a.lox".to_string()]).unwrap(), Mode::File("a.lox".to_string()));
    match choose_mode(&vec!["a".to_string(), "b".to_string()]) {
        Err(Error::CLIErrorr(m)) => assert_eq!(m, "Usage: zerox [file]"),
        _ => panic!("expected a usage error"),
    }
}
