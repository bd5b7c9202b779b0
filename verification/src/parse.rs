pub mod expr;
pub mod grammar;
pub mod laws;
pub mod stmt;

pub use crate::lex::{Token, TokenKind, Tokens};
pub use expr::{BinaryOperator, Expr, LiteralValue, UnaryOperator};
pub use stmt::Stmt;

use crate::error::Error;
use crate::span::Span;
use expr::{exprs_view, lemma_exprs_view_push, SExpr};
use grammar::{at, Level};
use stmt::{lemma_stmts_view_pair, lemma_stmts_view_push, opt_expr_view, stmts_view, SStmt};
use vstd::prelude::*;
use vstd::string::StringExecFns;

verus! {

/// A recursive-descent parser over a token list. A method that fails returns `None`
/// and leaves the position where it stopped.
#[derive(Debug)]
pub struct Parser {
    current: usize,
    tokens: Tokens,
}

/// A `for` clause as the grammar sees it: its expression, or what the statement gives
/// when the clause is malformed.
pub open spec fn clause_view(r: Result<Option<Expr>, Option<Stmt>>) -> Result<Option<SExpr>, Option<SStmt>> {
    match r {
        Ok(e) => Ok(opt_expr_view(e)),
        Err(s) => Err(opt_stmt_view(s)),
    }
}

pub open spec fn opt_stmt_view(s: Option<Stmt>) -> Option<SStmt> {
    match s {
        Some(x) => Some(x@),
        None => None,
    }
}

impl Parser {
    #[verifier::type_invariant]
    spec fn inv(self) -> bool {
        self.current <= self.tokens@.len()
    }

    /// The tokens being parsed.
    pub closed spec fn toks(&self) -> Seq<Token> {
        self.tokens@
    }

    /// The position of the next token to read.
    pub closed spec fn pos(&self) -> int {
        self.current as int
    }

    pub fn new(tokens: Tokens) -> (p: Self)
        ensures
            p.toks() == tokens@,
            p.pos() == 0,
    {
        Self { current: 0, tokens }
    }

    /// The current position and the token there, if there is one.
    pub fn state(&self) -> (r: Option<(usize, Token)>)
        ensures
            r == match at(self.toks(), self.pos()) {
                Some(t) => Some((self.pos() as usize, t)),
                None => None,
            },
    {
        let tok = match self.peek() {
            Some(tok) => tok,
            None => return None,
        };
        Some((self.current, tok))
    }

    /// The token at the current position, consumed.
    pub fn advance(&mut self) -> (r: Option<Token>)
        ensures
            final(self).toks() == old(self).toks(),
            r == at(old(self).toks(), old(self).pos()),
            final(self).pos() == if r is Some {
                old(self).pos() + 1
            } else {
                old(self).pos()
            },
            final(self).pos() <= final(self).toks().len(),
    {
        proof {
            use_type_invariant(&*self);
        }
        if self.current < self.tokens.len() {
            let tok = self.tokens[self.current];
            self.current = self.current + 1;
            Some(tok)
        } else {
            None
        }
    }

    /// The token at the current position.
    pub fn peek(&self) -> (r: Option<Token>)
        ensures
            r == at(self.toks(), self.pos()),
    {
        proof {
            use_type_invariant(self);
        }
        if self.current < self.tokens.len() {
            Some(self.tokens[self.current])
        } else {
            None
        }
    }

    pub fn parse_primary(&mut self) -> (r: Option<Expr>)
        ensures
            final(self).toks() == old(self).toks(),
            old(self).pos() <= final(self).pos() <= final(self).toks().len(),
            r is Some ==> old(self).pos() < final(self).pos(),
            (opt_expr_view(r), final(self).pos()) == grammar::primary(old(self).toks(), old(self).pos()),
        decreases old(self).toks().len() - old(self).pos(), 2int,
    {
        proof {
            use_type_invariant(&*self);
        }
        let tok = match self.peek() {
            Some(tok) => tok,
            None => return None,
        };
        match tok.kind {
            TokenKind::TRUE => {
                self.advance();
                Some(Expr::Literal { value: LiteralValue::True })
            },
            TokenKind::FALSE => {
                self.advance();
                Some(Expr::Literal { value: LiteralValue::False })
            },
            TokenKind::NIL => {
                self.advance();
                Some(Expr::Literal { value: LiteralValue::Nil })
            },
            TokenKind::NUMBER => {
                self.advance();
                Some(Expr::Literal { value: LiteralValue::Number(tok.span) })
            },
            TokenKind::STRING => {
                self.advance();
                Some(Expr::Literal { value: LiteralValue::String(tok.span) })
            },
            TokenKind::LPAREN => {
                self.advance();
                let expr = match self.parse_expression() {
                    Some(e) => e,
                    None => return None,
                };
                let close = match self.advance() {
                    Some(t) => t,
                    None => return None,
                };
                match close.kind {
                    TokenKind::RPAREN => Some(Expr::Group { inner: Box::new(expr) }),
                    _ => None,
                }
            },
            TokenKind::IDENTIFIER => {
                self.advance();
                Some(Expr::Variable { ident: tok.span })
            },
            _ => None,
        }
    }

    pub fn parse_expression(&mut self) -> (r: Option<Expr>)
        ensures
            final(self).toks() == old(self).toks(),
            old(self).pos() <= final(self).pos() <= final(self).toks().len(),
            r is Some ==> old(self).pos() < final(self).pos(),
            (opt_expr_view(r), final(self).pos()) == grammar::expression(old(self).toks(), old(self).pos()),
        decreases old(self).toks().len() - old(self).pos(), 12int,
    {
        proof {
            use_type_invariant(&*self);
        }
        self.parse_assignment()
    }

    pub fn parse_assignment(&mut self) -> (r: Option<Expr>)
        ensures
            final(self).toks() == old(self).toks(),
            old(self).pos() <= final(self).pos() <= final(self).toks().len(),
            r is Some ==> old(self).pos() < final(self).pos(),
            (opt_expr_view(r), final(self).pos()) == grammar::assignment(old(self).toks(), old(self).pos()),
        decreases old(self).toks().len() - old(self).pos(), 11int,
    {
        proof {
            use_type_invariant(&*self);
        }
        let exp = match self.parse_logic_or() {
            Some(e) => e,
            None => return None,
        };
        let next = match self.peek() {
            Some(t) => t,
            None => return None,
        };
        if next.kind == TokenKind::EQUAL {
            self.advance();
            let assign_expr = match self.parse_assignment() {
                Some(e) => e,
                None => return None,
            };
            return match exp {
                Expr::Variable { ident } => Some(
                    Expr::Assign { ident, expr: Box::new(assign_expr) },
                ),
                _ => None,
            };
        }
        Some(exp)
    }
    pub fn parse_logic_or(&mut self) -> (r: Option<Expr>)
        ensures
            final(self).toks() == old(self).toks(),
            old(self).pos() <= final(self).pos() <= final(self).toks().len(),
            r is Some ==> old(self).pos() < final(self).pos(),
            (opt_expr_view(r), final(self).pos()) == grammar::binary(
                Level::Or,
                old(self).toks(),
                old(self).pos(),
            ),
        decreases old(self).toks().len() - old(self).pos(), 10int,
    {
        proof {
            use_type_invariant(&*self);
        }
        let ghost t = self.toks();
        let ghost p0 = self.pos();
        assert(grammar::operand(Level::Or, t, p0) == grammar::binary(Level::And, t, p0));
        let mut expr = match self.parse_logic_and() {
            Some(e) => e,
            None => return None,
        };
        loop
            invariant
                self.toks() == t,
                t == old(self).toks(),
                p0 == old(self).pos(),
                p0 < self.pos() <= t.len(),
                grammar::binary(Level::Or, t, p0) == grammar::binary_rest(
                    Level::Or,
                    t,
                    self.pos(),
                    expr@,
                ),
            decreases t.len() - self.pos(),
        {
            let tok = match self.peek() {
                Some(tok) => tok,
                None => return None,
            };
            if tok.kind == TokenKind::OR {
                let op = BinaryOperator::Or;
                self.advance();
                assert(grammar::operand(Level::Or, t, self.pos()) == grammar::binary(Level::And, t, self.pos()));
                let rhs = match self.parse_logic_and() {
                    Some(e) => e,
                    None => return None,
                };
                expr = Expr::Binary { left: Box::new(expr), op, right: Box::new(rhs) };
            } else {
                return Some(expr);
            }
        }
    }

    pub fn parse_logic_and(&mut self) -> (r: Option<Expr>)
        ensures
            final(self).toks() == old(self).toks(),
            old(self).pos() <= final(self).pos() <= final(self).toks().len(),
            r is Some ==> old(self).pos() < final(self).pos(),
            (opt_expr_view(r), final(self).pos()) == grammar::binary(
                Level::And,
                old(self).toks(),
                old(self).pos(),
            ),
        decreases old(self).toks().len() - old(self).pos(), 9int,
    {
        proof {
            use_type_invariant(&*self);
        }
        let ghost t = self.toks();
        let ghost p0 = self.pos();
        assert(grammar::operand(Level::And, t, p0) == grammar::binary(Level::Equality, t, p0));
        let mut expr = match self.parse_equality() {
            Some(e) => e,
            None => return None,
        };
        loop
            invariant
                self.toks() == t,
                t == old(self).toks(),
                p0 == old(self).pos(),
                p0 < self.pos() <= t.len(),
                grammar::binary(Level::And, t, p0) == grammar::binary_rest(
                    Level::And,
                    t,
                    self.pos(),
                    expr@,
                ),
            decreases t.len() - self.pos(),
        {
            let tok = match self.peek() {
                Some(tok) => tok,
                None => return None,
            };
            if tok.kind == TokenKind::AND {
                let op = BinaryOperator::And;
                self.advance();
                assert(grammar::operand(Level::And, t, self.pos()) == grammar::binary(Level::Equality, t, self.pos()));
                let rhs = match self.parse_equality() {
                    Some(e) => e,
                    None => return None,
                };
                expr = Expr::Binary { left: Box::new(expr), op, right: Box::new(rhs) };
            } else {
                return Some(expr);
            }
        }
    }

    pub fn parse_equality(&mut self) -> (r: Option<Expr>)
        ensures
            final(self).toks() == old(self).toks(),
            old(self).pos() <= final(self).pos() <= final(self).toks().len(),
            r is Some ==> old(self).pos() < final(self).pos(),
            (opt_expr_view(r), final(self).pos()) == grammar::binary(
                Level::Equality,
                old(self).toks(),
                old(self).pos(),
            ),
        decreases old(self).toks().len() - old(self).pos(), 8int,
    {
        proof {
            use_type_invariant(&*self);
        }
        let ghost t = self.toks();
        let ghost p0 = self.pos();
        assert(grammar::operand(Level::Equality, t, p0) == grammar::binary(Level::Comparison, t, p0));
        let mut expr = match self.parse_comparison() {
            Some(e) => e,
            None => return None,
        };
        loop
            invariant
                self.toks() == t,
                t == old(self).toks(),
                p0 == old(self).pos(),
                p0 < self.pos() <= t.len(),
                grammar::binary(Level::Equality, t, p0) == grammar::binary_rest(
                    Level::Equality,
                    t,
                    self.pos(),
                    expr@,
                ),
            decreases t.len() - self.pos(),
        {
            let tok = match self.peek() {
                Some(tok) => tok,
                None => return None,
            };
            if tok.kind == TokenKind::BEQUAL || tok.kind == TokenKind::EEQUAL {
                let op = match BinaryOperator::try_from(tok.kind) {
                    Ok(op) => op,
                    Err(_) => return None,
                };
                self.advance();
                assert(grammar::operand(Level::Equality, t, self.pos()) == grammar::binary(Level::Comparison, t, self.pos()));
                let rhs = match self.parse_comparison() {
                    Some(e) => e,
                    None => return None,
                };
                expr = Expr::Binary { left: Box::new(expr), op, right: Box::new(rhs) };
            } else {
                return Some(expr);
            }
        }
    }

    pub fn parse_comparison(&mut self) -> (r: Option<Expr>)
        ensures
            final(self).toks() == old(self).toks(),
            old(self).pos() <= final(self).pos() <= final(self).toks().len(),
            r is Some ==> old(self).pos() < final(self).pos(),
            (opt_expr_view(r), final(self).pos()) == grammar::binary(
                Level::Comparison,
                old(self).toks(),
                old(self).pos(),
            ),
        decreases old(self).toks().len() - old(self).pos(), 7int,
    {
        proof {
            use_type_invariant(&*self);
        }
        let ghost t = self.toks();
        let ghost p0 = self.pos();
        assert(grammar::operand(Level::Comparison, t, p0) == grammar::binary(Level::Term, t, p0));
        let mut expr = match self.parse_term() {
            Some(e) => e,
            None => return None,
        };
        loop
            invariant
                self.toks() == t,
                t == old(self).toks(),
                p0 == old(self).pos(),
                p0 < self.pos() <= t.len(),
                grammar::binary(Level::Comparison, t, p0) == grammar::binary_rest(
                    Level::Comparison,
                    t,
                    self.pos(),
                    expr@,
                ),
            decreases t.len() - self.pos(),
        {
            let tok = match self.peek() {
                Some(tok) => tok,
                None => return None,
            };
            if tok.kind == TokenKind::LANGLE || tok.kind == TokenKind::LANGLEEQUAL
                || tok.kind == TokenKind::RANGLE || tok.kind == TokenKind::RANGLEEQUAL {
                let op = match BinaryOperator::try_from(tok.kind) {
                    Ok(op) => op,
                    Err(_) => return None,
                };
                self.advance();
                assert(grammar::operand(Level::Comparison, t, self.pos()) == grammar::binary(Level::Term, t, self.pos()));
                let rhs = match self.parse_term() {
                    Some(e) => e,
                    None => return None,
                };
                expr = Expr::Binary { left: Box::new(expr), op, right: Box::new(rhs) };
            } else {
                return Some(expr);
            }
        }
    }

    pub fn parse_term(&mut self) -> (r: Option<Expr>)
        ensures
            final(self).toks() == old(self).toks(),
            old(self).pos() <= final(self).pos() <= final(self).toks().len(),
            r is Some ==> old(self).pos() < final(self).pos(),
            (opt_expr_view(r), final(self).pos()) == grammar::binary(
                Level::Term,
                old(self).toks(),
                old(self).pos(),
            ),
        decreases old(self).toks().len() - old(self).pos(), 6int,
    {
        proof {
            use_type_invariant(&*self);
        }
        let ghost t = self.toks();
        let ghost p0 = self.pos();
        assert(grammar::operand(Level::Term, t, p0) == grammar::binary(Level::Factor, t, p0));
        let mut expr = match self.parse_factory() {
            Some(e) => e,
            None => return None,
        };
        loop
            invariant
                self.toks() == t,
                t == old(self).toks(),
                p0 == old(self).pos(),
                p0 < self.pos() <= t.len(),
                grammar::binary(Level::Term, t, p0) == grammar::binary_rest(
                    Level::Term,
                    t,
                    self.pos(),
                    expr@,
                ),
            decreases t.len() - self.pos(),
        {
            let tok = match self.peek() {
                Some(tok) => tok,
                None => return None,
            };
            if tok.kind == TokenKind::MINUS || tok.kind == TokenKind::PLUS {
                let op = match BinaryOperator::try_from(tok.kind) {
                    Ok(op) => op,
                    Err(_) => return None,
                };
                self.advance();
                assert(grammar::operand(Level::Term, t, self.pos()) == grammar::binary(Level::Factor, t, self.pos()));
                let rhs = match self.parse_factory() {
                    Some(e) => e,
                    None => return None,
                };
                expr = Expr::Binary { left: Box::new(expr), op, right: Box::new(rhs) };
            } else {
                return Some(expr);
            }
        }
    }

    pub fn parse_factory(&mut self) -> (r: Option<Expr>)
        ensures
            final(self).toks() == old(self).toks(),
            old(self).pos() <= final(self).pos() <= final(self).toks().len(),
            r is Some ==> old(self).pos() < final(self).pos(),
            (opt_expr_view(r), final(self).pos()) == grammar::binary(
                Level::Factor,
                old(self).toks(),
                old(self).pos(),
            ),
        decreases old(self).toks().len() - old(self).pos(), 5int,
    {
        proof {
            use_type_invariant(&*self);
        }
        let ghost t = self.toks();
        let ghost p0 = self.pos();
        assert(grammar::operand(Level::Factor, t, p0) == grammar::unary(t, p0));
        let mut expr = match self.parse_unary() {
            Some(e) => e,
            None => return None,
        };
        loop
            invariant
                self.toks() == t,
                t == old(self).toks(),
                p0 == old(self).pos(),
                p0 < self.pos() <= t.len(),
                grammar::binary(Level::Factor, t, p0) == grammar::binary_rest(
                    Level::Factor,
                    t,
                    self.pos(),
                    expr@,
                ),
            decreases t.len() - self.pos(),
        {
            let tok = match self.peek() {
                Some(tok) => tok,
                None => return None,
            };
            if tok.kind == TokenKind::STAR || tok.kind == TokenKind::SLASH {
                let op = match BinaryOperator::try_from(tok.kind) {
                    Ok(op) => op,
                    Err(_) => return None,
                };
                self.advance();
                assert(grammar::operand(Level::Factor, t, self.pos()) == grammar::unary(t, self.pos()));
                let rhs = match self.parse_unary() {
                    Some(e) => e,
                    None => return None,
                };
                expr = Expr::Binary { left: Box::new(expr), op, right: Box::new(rhs) };
            } else {
                return Some(expr);
            }
        }
    }

    pub fn parse_unary(&mut self) -> (r: Option<Expr>)
        ensures
            final(self).toks() == old(self).toks(),
            old(self).pos() <= final(self).pos() <= final(self).toks().len(),
            r is Some ==> old(self).pos() < final(self).pos(),
            (opt_expr_view(r), final(self).pos()) == grammar::unary(old(self).toks(), old(self).pos()),
        decreases old(self).toks().len() - old(self).pos(), 4int,
    {
        proof {
            use_type_invariant(&*self);
        }
        let tok = match self.peek() {
            Some(tok) => tok,
            None => return None,
        };
        if tok.kind == TokenKind::BANG || tok.kind == TokenKind::MINUS {
            let op = match UnaryOperator::try_from(tok.kind) {
                Ok(op) => op,
                Err(_) => return None,
            };
            self.advance();
            let expr = match self.parse_unary() {
                Some(e) => e,
                None => return None,
            };
            Some(Expr::Unary { op, expr: Box::new(expr) })
        } else {
            self.parse_call()
        }
    }

    pub fn parse_call(&mut self) -> (r: Option<Expr>)
        ensures
            final(self).toks() == old(self).toks(),
            old(self).pos() <= final(self).pos() <= final(self).toks().len(),
            r is Some ==> old(self).pos() < final(self).pos(),
            (opt_expr_view(r), final(self).pos()) == grammar::call(old(self).toks(), old(self).pos()),
        decreases old(self).toks().len() - old(self).pos(), 3int,
    {
        proof {
            use_type_invariant(&*self);
        }
        let ghost t = self.toks();
        let ghost p0 = self.pos();
        let expr = match self.parse_primary() {
            Some(e) => e,
            None => return None,
        };
        let next = match self.peek() {
            Some(tok) => tok,
            None => return None,
        };
        let callable = match expr {
            Expr::Literal { .. } => false,
            _ => true,
        };
        if next.kind == TokenKind::LPAREN && callable {
            self.advance();
            let mut args: Vec<Expr> = Vec::new();
            let ghost p1 = self.pos();
            if let Some(first_arg) = self.parse_expression() {
                proof {
                    lemma_exprs_view_push(args@, first_arg);
                    assert(exprs_view(Seq::<Expr>::empty()) =~= Seq::<SExpr>::empty());
                    assert(Seq::<SExpr>::empty().push(first_arg@) =~= seq![first_arg@]);
                }
                args.push(first_arg);
            } else {
                assert(exprs_view(args@) =~= Seq::<SExpr>::empty());
            }
            loop
                invariant
                    self.toks() == t,
                    t == old(self).toks(),
                    p0 == old(self).pos(),
                    p0 < p1 <= self.pos() <= t.len(),
                    grammar::call(t, p0) == grammar::call_args(
                        t,
                        self.pos(),
                        expr@,
                        exprs_view(args@),
                    ),
                decreases t.len() - self.pos(),
            {
                let tok = match self.peek() {
                    Some(tok) => tok,
                    None => return None,
                };
                match tok.kind {
                    TokenKind::RPAREN => {
                        self.advance();
                        return Some(Expr::Call { callee: Box::new(expr), args });
                    },
                    TokenKind::COMMA => {
                        self.advance();
                        let arg = match self.parse_expression() {
                            Some(e) => e,
                            None => return None,
                        };
                        proof {
                            lemma_exprs_view_push(args@, arg);
                        }
                        args.push(arg);
                    },
                    _ => return None,
                }
            }
        }
        Some(expr)
    }
    pub fn parse_decl(&mut self) -> (r: Option<Stmt>)
        ensures
            final(self).toks() == old(self).toks(),
            old(self).pos() <= final(self).pos() <= final(self).toks().len(),
            r is Some ==> old(self).pos() < final(self).pos(),
            (opt_stmt_view(r), final(self).pos()) == grammar::decl(old(self).toks(), old(self).pos()),
        decreases old(self).toks().len() - old(self).pos(), 2int,
    {
        proof {
            use_type_invariant(&*self);
        }
        let tok = match self.peek() {
            Some(tok) => tok,
            None => return None,
        };
        match tok.kind {
            TokenKind::VAR => {
                self.advance();
                return self.parse_var_decl();
            },
            TokenKind::FUN => {
                self.advance();
                return self.parse_fun_decl();
            },
            _ => {},
        }
        self.parse_stmt()
    }

    pub fn parse_var_decl(&mut self) -> (r: Option<Stmt>)
        ensures
            final(self).toks() == old(self).toks(),
            old(self).pos() <= final(self).pos() <= final(self).toks().len(),
            (opt_stmt_view(r), final(self).pos()) == grammar::var_decl(old(self).toks(), old(self).pos()),
        decreases old(self).toks().len() - old(self).pos(), 0int,
    {
        proof {
            use_type_invariant(&*self);
        }
        let ghost t = self.toks();
        let tok = match self.peek() {
            Some(tok) => tok,
            None => return None,
        };
        if tok.kind != TokenKind::IDENTIFIER {
            return Some(Stmt::Unknown(String::from_str("expect identifier after 'var'")));
        }
        self.advance();
        let mut stat = Stmt::VarDeclStmt { ident: tok.span, init_expr: None };
        let next = match self.peek() {
            Some(tok) => tok,
            None => return None,
        };
        match next.kind {
            TokenKind::EQUAL => {
                self.advance();
                let init_expr = match self.parse_expression() {
                    Some(e) => e,
                    None => return None,
                };
                stat = Stmt::VarDeclStmt { ident: tok.span, init_expr: Some(init_expr) };
            },
            _ => {},
        }
        let end = match self.advance() {
            Some(tok) => tok,
            None => return None,
        };
        match end.kind {
            TokenKind::SEMICOLON => Some(stat),
            _ => Some(Stmt::Unknown(String::from_str("expect ';' for varieble declaration"))),
        }
    }

    #[verifier::loop_isolation(false)]
    pub fn parse_fun_decl(&mut self) -> (r: Option<Stmt>)
        ensures
            final(self).toks() == old(self).toks(),
            old(self).pos() <= final(self).pos() <= final(self).toks().len(),
            (opt_stmt_view(r), final(self).pos()) == grammar::fun_decl(old(self).toks(), old(self).pos()),
        decreases old(self).toks().len() - old(self).pos(), 0int,
    {
        proof {
            use_type_invariant(&*self);
        }
        let ghost t = self.toks();
        let ghost p0 = self.pos();
        let tok = match self.peek() {
            Some(tok) => tok,
            None => return None,
        };
        if tok.kind != TokenKind::IDENTIFIER {
            return Some(Stmt::Unknown(String::from_str("expect identifier after 'fun'")));
        }
        self.advance();
        let open = match self.advance() {
            Some(tok) => tok,
            None => return None,
        };
        if open.kind != TokenKind::LPAREN {
            return Some(Stmt::Unknown(String::from_str("expect '(' after identifier")));
        }
        let mut params: Vec<Span> = Vec::new();
        let first = match self.peek() {
            Some(tok) => tok,
            None => return None,
        };
        if first.kind == TokenKind::IDENTIFIER {
            let first_param = match self.advance() {
                Some(tok) => tok,
                None => return None,
            };
            params.push(first_param.span);
        }
        let ghost q = self.pos();
        let ghost params0 = params@;
        assert(params0 == if first.kind == TokenKind::IDENTIFIER {
            seq![first.span]
        } else {
            Seq::<Span>::empty()
        });
        loop
            invariant
                self.toks() == t,
                t == old(self).toks(),
                p0 == old(self).pos(),
                p0 + 2 <= q <= self.pos() <= t.len(),
                grammar::params_rest(t, q, params0) == grammar::params_rest(t, self.pos(), params@),
            decreases t.len() - self.pos(),
        {
            let tok = match self.peek() {
                Some(tok) => tok,
                None => return None,
            };
            match tok.kind {
                TokenKind::RPAREN => {
                    self.advance();
                    break;
                },
                TokenKind::COMMA => {
                    self.advance();
                    let param = match self.advance() {
                        Some(tok) => tok,
                        None => return None,
                    };
                    if param.kind != TokenKind::IDENTIFIER {
                        return Some(Stmt::Unknown(String::from_str("expect identer after ','")));
                    }
                    params.push(param.span);
                },
                _ => {
                    return Some(Stmt::Unknown(String::from_str("unexpect character")));
                },
            }
        }
        let body_start = match self.peek() {
            Some(tok) => tok,
            None => return None,
        };
        if body_start.kind != TokenKind::LBRACE {
            return Some(
                Stmt::Unknown(
                    String::from_str("function declaration requires \"{ ... }\" as body"),
                ),
            );
        }
        let block = match self.parse_stmt() {
            Some(s) => s,
            None => return None,
        };
        Some(Stmt::FunDeclStmt { ident: tok.span, params, body: Box::new(block) })
    }

    pub fn parse_stmt(&mut self) -> (r: Option<Stmt>)
        ensures
            final(self).toks() == old(self).toks(),
            old(self).pos() <= final(self).pos() <= final(self).toks().len(),
            r is Some ==> old(self).pos() < final(self).pos(),
            (opt_stmt_view(r), final(self).pos()) == grammar::stmt(old(self).toks(), old(self).pos()),
        decreases old(self).toks().len() - old(self).pos(), 1int,
    {
        proof {
            use_type_invariant(&*self);
        }
        let tok = match self.peek() {
            Some(tok) => tok,
            None => return None,
        };
        match tok.kind {
            TokenKind::PRINT => {
                self.advance();
                self.parse_print_stmt()
            },
            TokenKind::LBRACE => {
                self.advance();
                self.parse_block()
            },
            TokenKind::IF => {
                self.advance();
                self.parse_if_stmt()
            },
            TokenKind::WHILE => {
                self.advance();
                self.parse_while_stmt()
            },
            TokenKind::FOR => {
                self.advance();
                self.parse_for_stmt()
            },
            _ => self.parse_expression_stmt(),
        }
    }

    pub fn parse_print_stmt(&mut self) -> (r: Option<Stmt>)
        ensures
            final(self).toks() == old(self).toks(),
            old(self).pos() <= final(self).pos() <= final(self).toks().len(),
            r is Some ==> old(self).pos() < final(self).pos(),
            (opt_stmt_view(r), final(self).pos()) == grammar::print_stmt(old(self).toks(), old(self).pos()),
        decreases old(self).toks().len() - old(self).pos(), 0int,
    {
        proof {
            use_type_invariant(&*self);
        }
        let expr = match self.parse_expression() {
            Some(e) => e,
            None => return None,
        };
        let tok = match self.advance() {
            Some(tok) => tok,
            None => return None,
        };
        match tok.kind {
            TokenKind::SEMICOLON => Some(Stmt::PrintStmt(expr)),
            _ => Some(Stmt::Unknown(String::from_str("expect ';' after expression"))),
        }
    }

    #[verifier::loop_isolation(false)]
    pub fn parse_block(&mut self) -> (r: Option<Stmt>)
        ensures
            final(self).toks() == old(self).toks(),
            old(self).pos() <= final(self).pos() <= final(self).toks().len(),
            r is Some ==> old(self).pos() < final(self).pos(),
            (opt_stmt_view(r), final(self).pos()) == grammar::block(old(self).toks(), old(self).pos()),
        decreases old(self).toks().len() - old(self).pos(), 3int,
    {
        proof {
            use_type_invariant(&*self);
        }
        let ghost t = self.toks();
        let ghost p0 = self.pos();
        let mut stmts: Vec<Stmt> = Vec::new();
        assert(stmts_view(stmts@) =~= Seq::<SStmt>::empty());
        loop
            invariant
                self.toks() == t,
                t == old(self).toks(),
                p0 == old(self).pos(),
                p0 <= self.pos() <= t.len(),
                grammar::block(t, p0) == grammar::block_rest(t, self.pos(), stmts_view(stmts@)),
            decreases t.len() - self.pos(),
        {
            let ghost pb = self.pos();
            match self.parse_decl() {
                Some(decl) => {
                    proof {
                        lemma_stmts_view_push(stmts@, decl);
                    }
                    stmts.push(decl);
                },
                None => {
                    assert(grammar::block_rest(t, pb, stmts_view(stmts@)) == grammar::block_end(
                        t,
                        self.pos(),
                        stmts_view(stmts@),
                    ));
                    break;
                },
            }
        }
        let end = match self.advance() {
            Some(tok) => tok,
            None => return None,
        };
        match end.kind {
            TokenKind::RBRACE => Some(Stmt::BlockStmt { stmts }),
            _ => Some(Stmt::Unknown(String::from_str("expect '}' after block"))),
        }
    }

    pub fn parse_expression_stmt(&mut self) -> (r: Option<Stmt>)
        ensures
            final(self).toks() == old(self).toks(),
            old(self).pos() <= final(self).pos() <= final(self).toks().len(),
            r is Some ==> old(self).pos() < final(self).pos(),
            (opt_stmt_view(r), final(self).pos()) == grammar::expression_stmt(old(self).toks(), old(self).pos()),
        decreases old(self).toks().len() - old(self).pos(), 0int,
    {
        proof {
            use_type_invariant(&*self);
        }
        let expr = match self.parse_expression() {
            Some(e) => e,
            None => return None,
        };
        let tok = match self.advance() {
            Some(tok) => tok,
            None => return None,
        };
        match tok.kind {
            TokenKind::SEMICOLON => Some(Stmt::ExprStmt(expr)),
            _ => Some(Stmt::Unknown(String::from_str("expect ';' after expression"))),
        }
    }

    pub fn parse_if_stmt(&mut self) -> (r: Option<Stmt>)
        ensures
            final(self).toks() == old(self).toks(),
            old(self).pos() <= final(self).pos() <= final(self).toks().len(),
            r is Some ==> old(self).pos() < final(self).pos(),
            (opt_stmt_view(r), final(self).pos()) == grammar::if_stmt(old(self).toks(), old(self).pos()),
        decreases old(self).toks().len() - old(self).pos(), 0int,
    {
        proof {
            use_type_invariant(&*self);
        }
        let open = match self.advance() {
            Some(tok) => tok,
            None => return None,
        };
        if open.kind != TokenKind::LPAREN {
            return Some(Stmt::Unknown(String::from_str("expect '(' after 'if'")));
        }
        let cond = match self.parse_expression() {
            Some(e) => e,
            None => return None,
        };
        let close = match self.advance() {
            Some(tok) => tok,
            None => return None,
        };
        if close.kind != TokenKind::RPAREN {
            return Some(
                Stmt::Unknown(String::from_str("expect ')' for closing if condition expression")),
            );
        }
        let then_stmt = match self.parse_stmt() {
            Some(s) => s,
            None => return None,
        };
        let tok = match self.peek() {
            Some(tok) => tok,
            None => return None,
        };
        if tok.kind == TokenKind::ELSE {
            self.advance();
            let else_stmt = match self.parse_stmt() {
                Some(s) => s,
                None => return None,
            };
            return Some(
                Stmt::IfStmt {
                    cond,
                    then_branch: Box::new(then_stmt),
                    else_branch: Some(Box::new(else_stmt)),
                },
            );
        }
        Some(Stmt::IfStmt { cond, then_branch: Box::new(then_stmt), else_branch: None })
    }

    pub fn parse_while_stmt(&mut self) -> (r: Option<Stmt>)
        ensures
            final(self).toks() == old(self).toks(),
            old(self).pos() <= final(self).pos() <= final(self).toks().len(),
            r is Some ==> old(self).pos() < final(self).pos(),
            (opt_stmt_view(r), final(self).pos()) == grammar::while_stmt(old(self).toks(), old(self).pos()),
        decreases old(self).toks().len() - old(self).pos(), 0int,
    {
        proof {
            use_type_invariant(&*self);
        }
        let open = match self.advance() {
            Some(tok) => tok,
            None => return None,
        };
        if open.kind != TokenKind::LPAREN {
            return Some(Stmt::Unknown(String::from_str("expect '(' after 'while'")));
        }
        let cond = match self.parse_expression() {
            Some(e) => e,
            None => return None,
        };
        let close = match self.advance() {
            Some(tok) => tok,
            None => return None,
        };
        if close.kind != TokenKind::RPAREN {
            return Some(
                Stmt::Unknown(
                    String::from_str("expect ')' for closing while condition expression"),
                ),
            );
        }
        let body = match self.parse_stmt() {
            Some(s) => s,
            None => return None,
        };
        Some(Stmt::WhileStmt { cond, body: Box::new(body) })
    }

    /// A `for` loop, returned as its `while` form (see `grammar::desugar_for`).
    pub fn parse_for_stmt(&mut self) -> (r: Option<Stmt>)
        ensures
            final(self).toks() == old(self).toks(),
            old(self).pos() <= final(self).pos() <= final(self).toks().len(),
            r is Some ==> old(self).pos() < final(self).pos(),
            (opt_stmt_view(r), final(self).pos()) == grammar::for_stmt(old(self).toks(), old(self).pos()),
        decreases old(self).toks().len() - old(self).pos(), 0int,
    {
        proof {
            use_type_invariant(&*self);
        }
        let ghost t = self.toks();
        let ghost p0 = self.pos();
        let open = match self.advance() {
            Some(tok) => tok,
            None => return None,
        };
        if open.kind != TokenKind::LPAREN {
            return Some(Stmt::Unknown(String::from_str("expect '(' after 'for'")));
        }
        let mut init: Option<Stmt> = None;
        let tok = match self.peek() {
            Some(tok) => tok,
            None => return None,
        };
        match tok.kind {
            TokenKind::SEMICOLON => {
                self.advance();
            },
            TokenKind::VAR => {
                self.advance();
                init = self.parse_var_decl();
            },
            _ => {
                init = self.parse_expression_stmt();
            },
        }
        let ghost q1 = self.pos();
        assert((opt_stmt_view(init), q1) == if tok.kind == TokenKind::SEMICOLON {
            (None, p0 + 2)
        } else if tok.kind == TokenKind::VAR {
            grammar::var_decl(t, p0 + 2)
        } else {
            grammar::expression_stmt(t, p0 + 1)
        });

        let cond = match self.parse_for_cond() {
            Ok(c) => c,
            Err(out) => return out,
        };
        let incr = match self.parse_for_incr() {
            Ok(i) => i,
            Err(out) => return out,
        };
        let body = match self.parse_stmt() {
            Some(s) => s,
            None => return None,
        };
        Some(Self::desugar_for(init, cond, incr, body))
    }

    /// The condition clause of a `for`, up to and including its `;`: the condition, if
    /// any, or what the whole statement gives when the clause is malformed.
    fn parse_for_cond(&mut self) -> (r: Result<Option<Expr>, Option<Stmt>>)
        ensures
            final(self).toks() == old(self).toks(),
            old(self).pos() <= final(self).pos() <= final(self).toks().len(),
            (clause_view(r), final(self).pos()) == grammar::for_cond(old(self).toks(), old(self).pos()),
    {
        proof {
            use_type_invariant(&*self);
        }
        let tok = match self.peek() {
            Some(tok) => tok,
            None => return Err(None),
        };
        if tok.kind == TokenKind::SEMICOLON {
            self.advance();
            return Ok(None);
        }
        let cond = self.parse_expression();
        let end = match self.advance() {
            Some(tok) => tok,
            None => return Err(None),
        };
        if end.kind != TokenKind::SEMICOLON {
            return Err(
                Some(
                    Stmt::Unknown(
                        String::from_str("expect ';' to end condtition expression in 'for' clauses"),
                    ),
                ),
            );
        }
        Ok(cond)
    }

    /// The increment clause of a `for`, up to and including its `)`: the increment, if
    /// any, or what the whole statement gives when the clause is malformed.
    fn parse_for_incr(&mut self) -> (r: Result<Option<Expr>, Option<Stmt>>)
        ensures
            final(self).toks() == old(self).toks(),
            old(self).pos() <= final(self).pos() <= final(self).toks().len(),
            (clause_view(r), final(self).pos()) == grammar::for_incr(old(self).toks(), old(self).pos()),
    {
        proof {
            use_type_invariant(&*self);
        }
        let tok = match self.peek() {
            Some(tok) => tok,
            None => return Err(None),
        };
        if tok.kind == TokenKind::RPAREN {
            self.advance();
            return Ok(None);
        }
        let incr = self.parse_expression();
        let end = match self.advance() {
            Some(tok) => tok,
            None => return Err(None),
        };
        if end.kind != TokenKind::RPAREN {
            return Err(Some(Stmt::Unknown(String::from_str("expect ')' to close 'for' clauses"))));
        }
        Ok(incr)
    }

    /// The `while` form of a `for` loop (see `grammar::desugar_for`).
    fn desugar_for(init: Option<Stmt>, cond: Option<Expr>, incr: Option<Expr>, body: Stmt) -> (r: Stmt)
        ensures
            r@ == grammar::desugar_for(opt_stmt_view(init), opt_expr_view(cond), opt_expr_view(incr), body@),
    {
        let ghost body0 = body@;
        let looped = match incr {
            Some(incr_stmt) => {
                let mut stmts: Vec<Stmt> = Vec::new();
                stmts.push(body);
                stmts.push(Stmt::ExprStmt(incr_stmt));
                proof {
                    lemma_stmts_view_pair(stmts@);
                }
                Stmt::BlockStmt { stmts }
            },
            None => body,
        };
        let test = match cond {
            Some(c) => c,
            None => Expr::Literal { value: LiteralValue::True },
        };
        let ghost looped_v = looped@;
        assert(looped_v == match opt_expr_view(incr) {
            Some(i) => SStmt::Block(seq![body0, SStmt::Expr(i)]),
            None => body0,
        });
        let w = Stmt::WhileStmt { cond: test, body: Box::new(looped) };
        let ghost w_v = w@;
        assert(w_v == SStmt::While(
            match opt_expr_view(cond) {
                Some(c) => c,
                None => SExpr::Literal(LiteralValue::True),
            },
            Box::new(looped_v),
        ));
        match init {
            Some(init_stmt) => {
                let mut stmts: Vec<Stmt> = Vec::new();
                let ghost init_v = init_stmt@;
                stmts.push(init_stmt);
                stmts.push(w);
                proof {
                    lemma_stmts_view_pair(stmts@);
                    assert(stmts_view(stmts@) == seq![init_v, w_v]);
                }
                Stmt::BlockStmt { stmts }
            },
            None => w,
        }
    }

    /// Declarations until at most one token (the `EOF`) is left. The first declaration
    /// that fails, or that the parser marks as unknown, ends parsing with its message.
    #[verifier::loop_isolation(false)]
    pub fn parse(&mut self) -> (r: Result<Vec<Stmt>, Error>)
        ensures
            final(self).toks() == old(self).toks(),
            match grammar::program(old(self).toks(), old(self).pos(), seq![]) {
                Ok(ss) => r matches Ok(v) && stmts_view(v@) == ss,
                Err(m) => r matches Err(Error::ParseError(msg)) && msg@ == m,
            },
    {
        proof {
            use_type_invariant(&*self);
        }
        let ghost t = self.toks();
        let ghost p0 = self.pos();
        let mut prog: Vec<Stmt> = Vec::new();
        assert(stmts_view(prog@) =~= Seq::<SStmt>::empty());
        let n = self.tokens.len();
        loop
            invariant
                self.toks() == t,
                t == old(self).toks(),
                n == t.len(),
                0 <= self.pos() <= t.len(),
                grammar::program(t, p0, seq![]) == grammar::program(
                    t,
                    self.pos(),
                    stmts_view(prog@),
                ),
            decreases t.len() - self.pos(),
        {
            proof {
                use_type_invariant(&*self);
            }
            if n - self.current <= 1 {
                break;
            }
            let ghost pb = self.pos();
            match self.parse_decl() {
                Some(valid_stmt) => match valid_stmt {
                    Stmt::Unknown(msg) => {
                        assert(grammar::program(t, pb, stmts_view(prog@)) == Err::<Seq<SStmt>, Seq<char>>(msg@));
                        return Err(Error::ParseError(msg));
                    },
                    _ => {
                        proof {
                            lemma_stmts_view_push(prog@, valid_stmt);
                        }
                        prog.push(valid_stmt);
                    },
                },
                None => {
                    assert(grammar::program(t, pb, stmts_view(prog@)) == Err::<Seq<SStmt>, Seq<char>>(
                        "Unknown syntax."@,
                    ));
                    return Err(Error::ParseError(String::from_str("Unknown syntax.")));
                },
            }
        }
        Ok(prog)
    }
}

} // verus!
