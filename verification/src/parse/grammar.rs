//! The grammar, as spec functions from a token sequence and a position to what the
//! parser returns there and the position it stops at. A parse step that fails may
//! still have consumed tokens; the position it reports is where it stopped.
use super::expr::{BinaryOperator, LiteralValue, SExpr, UnaryOperator};
use super::stmt::SStmt;
use crate::lex::{Token, TokenKind};
use crate::span::Span;
use vstd::prelude::*;

verus! {

/// The token at position `p`, if there is one.
pub open spec fn at(t: Seq<Token>, p: int) -> Option<Token> {
    if 0 <= p < t.len() {
        Some(t[p])
    } else {
        None
    }
}

/// The binary operator levels, from the tightest binding to the loosest.
pub enum Level {
    Factor,
    Term,
    Comparison,
    Equality,
    And,
    Or,
}

pub open spec fn level_index(l: Level) -> int {
    match l {
        Level::Factor => 0,
        Level::Term => 1,
        Level::Comparison => 2,
        Level::Equality => 3,
        Level::And => 4,
        Level::Or => 5,
    }
}

/// The next tighter level.
pub open spec fn tighter(l: Level) -> Level {
    match l {
        Level::Factor => Level::Factor,
        Level::Term => Level::Factor,
        Level::Comparison => Level::Term,
        Level::Equality => Level::Comparison,
        Level::And => Level::Equality,
        Level::Or => Level::And,
    }
}

/// The binary operator that a token of kind `k` stands for at level `l`.
pub open spec fn level_op(l: Level, k: TokenKind) -> Option<BinaryOperator> {
    match l {
        Level::Factor => if k == TokenKind::STAR {
            Some(BinaryOperator::Multiply)
        } else if k == TokenKind::SLASH {
            Some(BinaryOperator::Divide)
        } else {
            None
        },
        Level::Term => if k == TokenKind::MINUS {
            Some(BinaryOperator::Minus)
        } else if k == TokenKind::PLUS {
            Some(BinaryOperator::Add)
        } else {
            None
        },
        Level::Comparison => if k == TokenKind::LANGLE {
            Some(BinaryOperator::Less)
        } else if k == TokenKind::LANGLEEQUAL {
            Some(BinaryOperator::LessEqual)
        } else if k == TokenKind::RANGLE {
            Some(BinaryOperator::Greater)
        } else if k == TokenKind::RANGLEEQUAL {
            Some(BinaryOperator::GreaterEqual)
        } else {
            None
        },
        Level::Equality => if k == TokenKind::BEQUAL {
            Some(BinaryOperator::NotEqual)
        } else if k == TokenKind::EEQUAL {
            Some(BinaryOperator::Equal)
        } else {
            None
        },
        Level::And => if k == TokenKind::AND {
            Some(BinaryOperator::And)
        } else {
            None
        },
        Level::Or => if k == TokenKind::OR {
            Some(BinaryOperator::Or)
        } else {
            None
        },
    }
}

/// An expression: an assignment, or what an assignment's target may be.
pub open spec fn expression(t: Seq<Token>, p: int) -> (Option<SExpr>, int)
    decreases t.len() - p, 16int,
{
    assignment(t, p)
}

/// `target = value`, right-associative; the target must be a plain variable.
pub open spec fn assignment(t: Seq<Token>, p: int) -> (Option<SExpr>, int)
    decreases t.len() - p, 15int,
{
    let (e, p1) = binary(Level::Or, t, p);
    match e {
        None => (None, p1),
        Some(x) => match at(t, p1) {
            None => (None, p1),
            Some(next) => if next.kind == TokenKind::EQUAL {
                if p <= p1 {
                    let (a, p2) = assignment(t, p1 + 1);
                    match a {
                        None => (None, p2),
                        Some(v) => match x {
                            SExpr::Variable(ident) => (Some(SExpr::Assign(ident, Box::new(v))), p2),
                            _ => (None, p2),
                        },
                    }
                } else {
                    (None, p1)
                }
            } else {
                (Some(x), p1)
            },
        },
    }
}

/// The operand of a binary operator at level `l`.
pub open spec fn operand(l: Level, t: Seq<Token>, p: int) -> (Option<SExpr>, int)
    decreases t.len() - p, 2 * level_index(l) + 3,
{
    if l is Factor {
        unary(t, p)
    } else {
        binary(tighter(l), t, p)
    }
}

/// Operands of level `l` joined, left-associatively, by that level's operators.
pub open spec fn binary(l: Level, t: Seq<Token>, p: int) -> (Option<SExpr>, int)
    decreases t.len() - p, 2 * level_index(l) + 4,
{
    let (e, p1) = operand(l, t, p);
    match e {
        None => (None, p1),
        Some(lhs) => if p <= p1 <= t.len() {
            binary_rest(l, t, p1, lhs)
        } else {
            (None, p1)
        },
    }
}

/// The rest of a chain of level-`l` operators after the expression `lhs`.
pub open spec fn binary_rest(l: Level, t: Seq<Token>, p: int, lhs: SExpr) -> (Option<SExpr>, int)
    decreases t.len() - p, 2 * level_index(l) + 3,
{
    match at(t, p) {
        None => (None, p),
        Some(tok) => match level_op(l, tok.kind) {
            None => (Some(lhs), p),
            Some(op) => {
                let (r, p2) = operand(l, t, p + 1);
                match r {
                    None => (None, p2),
                    Some(rhs) => if p + 1 <= p2 <= t.len() {
                        binary_rest(l, t, p2, SExpr::Binary(Box::new(lhs), op, Box::new(rhs)))
                    } else {
                        (None, p2)
                    },
                }
            },
        },
    }
}

/// A prefix `-` or `!` applied to a unary expression, or a call.
pub open spec fn unary(t: Seq<Token>, p: int) -> (Option<SExpr>, int)
    decreases t.len() - p, 2int,
{
    match at(t, p) {
        None => (None, p),
        Some(tok) => if tok.kind == TokenKind::BANG || tok.kind == TokenKind::MINUS {
            let op = if tok.kind == TokenKind::MINUS {
                UnaryOperator::Negative
            } else {
                UnaryOperator::Not
            };
            let (e, p1) = unary(t, p + 1);
            match e {
                None => (None, p1),
                Some(x) => (Some(SExpr::Unary(op, Box::new(x))), p1),
            }
        } else {
            call(t, p)
        },
    }
}

/// A primary expression, followed by at most one parenthesised argument list.
/// A literal is never called: after a literal, `(` does not open an argument list.
pub open spec fn call(t: Seq<Token>, p: int) -> (Option<SExpr>, int)
    decreases t.len() - p, 1int,
{
    let (e, p1) = primary(t, p);
    match e {
        None => (None, p1),
        Some(callee) => match at(t, p1) {
            None => (None, p1),
            Some(tok) => if tok.kind == TokenKind::LPAREN && !(callee is Literal) {
                if p <= p1 {
                    let (first, p2) = expression(t, p1 + 1);
                    let args = match first {
                        Some(a) => seq![a],
                        None => seq![],
                    };
                    if p1 + 1 <= p2 <= t.len() {
                        call_args(t, p2, callee, args)
                    } else {
                        (None, p2)
                    }
                } else {
                    (None, p1)
                }
            } else {
                (Some(callee), p1)
            },
        },
    }
}

/// The rest of an argument list: `, argument` repeated, then `)`.
pub open spec fn call_args(t: Seq<Token>, p: int, callee: SExpr, args: Seq<SExpr>) -> (
    Option<SExpr>,
    int,
)
    decreases t.len() - p, 0int,
{
    match at(t, p) {
        None => (None, p),
        Some(tok) => if tok.kind == TokenKind::RPAREN {
            (Some(SExpr::Call(Box::new(callee), args)), p + 1)
        } else if tok.kind == TokenKind::COMMA {
            let (a, p2) = expression(t, p + 1);
            match a {
                None => (None, p2),
                Some(x) => if p + 1 <= p2 <= t.len() {
                    call_args(t, p2, callee, args.push(x))
                } else {
                    (None, p2)
                },
            }
        } else {
            (None, p)
        },
    }
}

/// A literal, a parenthesised expression or a variable.
pub open spec fn primary(t: Seq<Token>, p: int) -> (Option<SExpr>, int)
    decreases t.len() - p, 0int,
{
    match at(t, p) {
        None => (None, p),
        Some(tok) => if tok.kind == TokenKind::TRUE {
            (Some(SExpr::Literal(LiteralValue::True)), p + 1)
        } else if tok.kind == TokenKind::FALSE {
            (Some(SExpr::Literal(LiteralValue::False)), p + 1)
        } else if tok.kind == TokenKind::NIL {
            (Some(SExpr::Literal(LiteralValue::Nil)), p + 1)
        } else if tok.kind == TokenKind::NUMBER {
            (Some(SExpr::Literal(LiteralValue::Number(tok.span))), p + 1)
        } else if tok.kind == TokenKind::STRING {
            (Some(SExpr::Literal(LiteralValue::String(tok.span))), p + 1)
        } else if tok.kind == TokenKind::LPAREN {
            let (e, p1) = expression(t, p + 1);
            match e {
                None => (None, p1),
                Some(inner) => match at(t, p1) {
                    None => (None, p1),
                    Some(close) => if close.kind == TokenKind::RPAREN {
                        (Some(SExpr::Group(Box::new(inner))), p1 + 1)
                    } else {
                        (None, p1 + 1)
                    },
                },
            }
        } else if tok.kind == TokenKind::IDENTIFIER {
            (Some(SExpr::Variable(tok.span)), p + 1)
        } else {
            (None, p)
        },
    }
}

pub open spec fn unknown(msg: Seq<char>) -> Option<SStmt> {
    Some(SStmt::Unknown(msg))
}

/// A declaration: `var ...`, `fun ...`, or a statement.
pub open spec fn decl(t: Seq<Token>, p: int) -> (Option<SStmt>, int)
    decreases t.len() - p, 2int,
{
    match at(t, p) {
        None => (None, p),
        Some(tok) => if tok.kind == TokenKind::VAR {
            var_decl(t, p + 1)
        } else if tok.kind == TokenKind::FUN {
            fun_decl(t, p + 1)
        } else {
            stmt(t, p)
        },
    }
}

/// What follows `var`: a name, an optional `= initializer`, and `;`.
pub open spec fn var_decl(t: Seq<Token>, p: int) -> (Option<SStmt>, int)
    decreases t.len() - p, 0int,
{
    match at(t, p) {
        None => (None, p),
        Some(tok) => if tok.kind != TokenKind::IDENTIFIER {
            (unknown("expect identifier after 'var'"@), p)
        } else {
            match at(t, p + 1) {
                None => (None, p + 1),
                Some(next) => if next.kind == TokenKind::EQUAL {
                    let (e, p2) = expression(t, p + 2);
                    match e {
                        None => (None, p2),
                        Some(init) => var_decl_end(t, p2, SStmt::VarDecl(tok.span, Some(init))),
                    }
                } else {
                    var_decl_end(t, p + 1, SStmt::VarDecl(tok.span, None))
                },
            }
        },
    }
}

/// The `;` that ends a variable declaration.
pub open spec fn var_decl_end(t: Seq<Token>, p: int, decl: SStmt) -> (Option<SStmt>, int) {
    match at(t, p) {
        None => (None, p),
        Some(tok) => if tok.kind == TokenKind::SEMICOLON {
            (Some(decl), p + 1)
        } else {
            (unknown("expect ';' for varieble declaration"@), p + 1)
        },
    }
}

/// The rest of a parameter list after its first parameter (if any): `, name` repeated,
/// then `)`. `Ok` with the names and the position after `)`, or `Err` with what the
/// declaration then returns.
pub open spec fn params_rest(t: Seq<Token>, p: int, params: Seq<Span>) -> (
    Result<Seq<Span>, Option<SStmt>>,
    int,
)
    decreases t.len() - p,
{
    match at(t, p) {
        None => (Err(None), p),
        Some(tok) => if tok.kind == TokenKind::RPAREN {
            (Ok(params), p + 1)
        } else if tok.kind == TokenKind::COMMA {
            match at(t, p + 1) {
                None => (Err(None), p + 1),
                Some(param) => if param.kind != TokenKind::IDENTIFIER {
                    (Err(unknown("expect identer after ','"@)), p + 2)
                } else {
                    params_rest(t, p + 2, params.push(param.span))
                },
            }
        } else {
            (Err(unknown("unexpect character"@)), p)
        },
    }
}

/// What follows `fun`: a name, a parameter list and a block.
pub open spec fn fun_decl(t: Seq<Token>, p: int) -> (Option<SStmt>, int)
    decreases t.len() - p, 0int,
{
    match at(t, p) {
        None => (None, p),
        Some(name) => if name.kind != TokenKind::IDENTIFIER {
            (unknown("expect identifier after 'fun'"@), p)
        } else {
            match at(t, p + 1) {
                None => (None, p + 1),
                Some(open) => if open.kind != TokenKind::LPAREN {
                    (unknown("expect '(' after identifier"@), p + 2)
                } else {
                    match at(t, p + 2) {
                        None => (None, p + 2),
                        Some(first) => {
                            let (params0, q) = if first.kind == TokenKind::IDENTIFIER {
                                (seq![first.span], p + 3)
                            } else {
                                (seq![], p + 2)
                            };
                            let (res, r) = params_rest(t, q, params0);
                            match res {
                                Err(out) => (out, r),
                                Ok(params) => match at(t, r) {
                                    None => (None, r),
                                    Some(body_start) => if body_start.kind != TokenKind::LBRACE {
                                        (
                                            unknown(
                                                "function declaration requires \"{ ... }\" as body"@,
                                            ),
                                            r,
                                        )
                                    } else if p < r {
                                        let (b, r2) = stmt(t, r);
                                        match b {
                                            None => (None, r2),
                                            Some(body) => (
                                                Some(SStmt::FunDecl(name.span, params, Box::new(body))),
                                                r2,
                                            ),
                                        }
                                    } else {
                                        (None, r)
                                    },
                                },
                            }
                        },
                    }
                },
            }
        },
    }
}

/// A statement: `print`, a block, `if`, `while`, `for`, or an expression statement.
pub open spec fn stmt(t: Seq<Token>, p: int) -> (Option<SStmt>, int)
    decreases t.len() - p, 1int,
{
    match at(t, p) {
        None => (None, p),
        Some(tok) => if tok.kind == TokenKind::PRINT {
            print_stmt(t, p + 1)
        } else if tok.kind == TokenKind::LBRACE {
            block(t, p + 1)
        } else if tok.kind == TokenKind::IF {
            if_stmt(t, p + 1)
        } else if tok.kind == TokenKind::WHILE {
            while_stmt(t, p + 1)
        } else if tok.kind == TokenKind::FOR {
            for_stmt(t, p + 1)
        } else {
            expression_stmt(t, p)
        },
    }
}

/// What follows `print`: an expression and `;`.
pub open spec fn print_stmt(t: Seq<Token>, p: int) -> (Option<SStmt>, int) {
    let (e, p1) = expression(t, p);
    match e {
        None => (None, p1),
        Some(x) => match at(t, p1) {
            None => (None, p1),
            Some(tok) => if tok.kind == TokenKind::SEMICOLON {
                (Some(SStmt::Print(x)), p1 + 1)
            } else {
                (unknown("expect ';' after expression"@), p1 + 1)
            },
        },
    }
}

/// An expression followed by `;`.
pub open spec fn expression_stmt(t: Seq<Token>, p: int) -> (Option<SStmt>, int) {
    let (e, p1) = expression(t, p);
    match e {
        None => (None, p1),
        Some(x) => match at(t, p1) {
            None => (None, p1),
            Some(tok) => if tok.kind == TokenKind::SEMICOLON {
                (Some(SStmt::Expr(x)), p1 + 1)
            } else {
                (unknown("expect ';' after expression"@), p1 + 1)
            },
        },
    }
}

/// What follows `{`: declarations up to the first that fails, then `}`.
pub open spec fn block(t: Seq<Token>, p: int) -> (Option<SStmt>, int)
    decreases t.len() - p, 4int,
{
    block_rest(t, p, seq![])
}

/// The rest of a block after the declarations `stmts`.
pub open spec fn block_rest(t: Seq<Token>, p: int, stmts: Seq<SStmt>) -> (Option<SStmt>, int)
    decreases t.len() - p, 3int,
{
    let (d, p1) = decl(t, p);
    match d {
        Some(x) => if p < p1 <= t.len() {
            block_rest(t, p1, stmts.push(x))
        } else {
            (None, p1)
        },
        None => block_end(t, p1, stmts),
    }
}

/// The `}` that ends a block of the declarations `stmts`.
pub open spec fn block_end(t: Seq<Token>, p: int, stmts: Seq<SStmt>) -> (Option<SStmt>, int) {
    match at(t, p) {
        None => (None, p),
        Some(tok) => if tok.kind == TokenKind::RBRACE {
            (Some(SStmt::Block(stmts)), p + 1)
        } else {
            (unknown("expect '}' after block"@), p + 1)
        },
    }
}

/// What follows `if`: `( condition )`, a statement, and optionally `else` and a statement.
pub open spec fn if_stmt(t: Seq<Token>, p: int) -> (Option<SStmt>, int)
    decreases t.len() - p, 0int,
{
    match at(t, p) {
        None => (None, p),
        Some(open) => if open.kind != TokenKind::LPAREN {
            (unknown("expect '(' after 'if'"@), p + 1)
        } else {
            let (c, p1) = expression(t, p + 1);
            match c {
                None => (None, p1),
                Some(cond) => match at(t, p1) {
                    None => (None, p1),
                    Some(close) => if close.kind != TokenKind::RPAREN {
                        (unknown("expect ')' for closing if condition expression"@), p1 + 1)
                    } else if p <= p1 {
                        let (th, p2) = stmt(t, p1 + 1);
                        match th {
                            None => (None, p2),
                            Some(then_branch) => match at(t, p2) {
                                None => (None, p2),
                                Some(tok) => if tok.kind == TokenKind::ELSE {
                                    if p <= p2 {
                                        let (el, p3) = stmt(t, p2 + 1);
                                        match el {
                                            None => (None, p3),
                                            Some(else_branch) => (
                                                Some(
                                                    SStmt::If(
                                                        cond,
                                                        Box::new(then_branch),
                                                        Some(Box::new(else_branch)),
                                                    ),
                                                ),
                                                p3,
                                            ),
                                        }
                                    } else {
                                        (None, p2)
                                    }
                                } else {
                                    (Some(SStmt::If(cond, Box::new(then_branch), None)), p2)
                                },
                            },
                        }
                    } else {
                        (None, p1)
                    },
                },
            }
        },
    }
}

/// What follows `while`: `( condition )` and a statement.
pub open spec fn while_stmt(t: Seq<Token>, p: int) -> (Option<SStmt>, int)
    decreases t.len() - p, 0int,
{
    match at(t, p) {
        None => (None, p),
        Some(open) => if open.kind != TokenKind::LPAREN {
            (unknown("expect '(' after 'while'"@), p + 1)
        } else {
            let (c, p1) = expression(t, p + 1);
            match c {
                None => (None, p1),
                Some(cond) => match at(t, p1) {
                    None => (None, p1),
                    Some(close) => if close.kind != TokenKind::RPAREN {
                        (unknown("expect ')' for closing while condition expression"@), p1 + 1)
                    } else if p <= p1 {
                        let (b, p2) = stmt(t, p1 + 1);
                        match b {
                            None => (None, p2),
                            Some(body) => (Some(SStmt::While(cond, Box::new(body))), p2),
                        }
                    } else {
                        (None, p1)
                    },
                },
            }
        },
    }
}

/// The condition clause of a `for`, from the token after its initializer: `Ok` with the
/// condition, if any, and the position after its `;`, or `Err` with what `for` returns.
pub open spec fn for_cond(t: Seq<Token>, p: int) -> (Result<Option<SExpr>, Option<SStmt>>, int) {
    match at(t, p) {
        None => (Err(None), p),
        Some(tok) => if tok.kind == TokenKind::SEMICOLON {
            (Ok(None), p + 1)
        } else {
            let (c, q) = expression(t, p);
            match at(t, q) {
                None => (Err(None), q),
                Some(end) => if end.kind != TokenKind::SEMICOLON {
                    (
                        Err(unknown("expect ';' to end condtition expression in 'for' clauses"@)),
                        q + 1,
                    )
                } else {
                    (Ok(c), q + 1)
                },
            }
        },
    }
}

/// The increment clause of a `for`, up to and including its `)`.
pub open spec fn for_incr(t: Seq<Token>, p: int) -> (Result<Option<SExpr>, Option<SStmt>>, int) {
    match at(t, p) {
        None => (Err(None), p),
        Some(tok) => if tok.kind == TokenKind::RPAREN {
            (Ok(None), p + 1)
        } else {
            let (i, q) = expression(t, p);
            match at(t, q) {
                None => (Err(None), q),
                Some(end) => if end.kind != TokenKind::RPAREN {
                    (Err(unknown("expect ')' to close 'for' clauses"@)), q + 1)
                } else {
                    (Ok(i), q + 1)
                },
            }
        },
    }
}

/// A `for` loop in terms of `while`: the body followed by the increment, repeated while
/// the condition (`true` when absent) holds, after the initializer.
pub open spec fn desugar_for(
    init: Option<SStmt>,
    cond: Option<SExpr>,
    incr: Option<SExpr>,
    body: SStmt,
) -> SStmt {
    let looped = match incr {
        Some(i) => SStmt::Block(seq![body, SStmt::Expr(i)]),
        None => body,
    };
    let test = match cond {
        Some(c) => c,
        None => SExpr::Literal(LiteralValue::True),
    };
    let w = SStmt::While(test, Box::new(looped));
    match init {
        Some(s) => SStmt::Block(seq![s, w]),
        None => w,
    }
}

/// What follows `for`: `( initializer ; condition ; increment )` and a statement.
pub open spec fn for_stmt(t: Seq<Token>, p: int) -> (Option<SStmt>, int)
    decreases t.len() - p, 0int,
{
    match at(t, p) {
        None => (None, p),
        Some(open) => if open.kind != TokenKind::LPAREN {
            (unknown("expect '(' after 'for'"@), p + 1)
        } else {
            match at(t, p + 1) {
                None => (None, p + 1),
                Some(tok) => {
                    let (init, q1) = if tok.kind == TokenKind::SEMICOLON {
                        (None, p + 2)
                    } else if tok.kind == TokenKind::VAR {
                        var_decl(t, p + 2)
                    } else {
                        expression_stmt(t, p + 1)
                    };
                    let (cr, q2) = for_cond(t, q1);
                    match cr {
                        Err(out) => (out, q2),
                        Ok(cond) => {
                            let (ir, q3) = for_incr(t, q2);
                            match ir {
                                Err(out) => (out, q3),
                                Ok(incr) => if p < q3 <= t.len() {
                                    let (b, q4) = stmt(t, q3);
                                    match b {
                                        None => (None, q4),
                                        Some(body) => (Some(desugar_for(init, cond, incr, body)), q4),
                                    }
                                } else {
                                    (None, q3)
                                },
                            }
                        },
                    }
                },
            }
        },
    }
}

/// Declarations from position `p` until at most one token (the `EOF`) is left, after
/// the declarations `acc`; or the message of the first that fails.
pub open spec fn program(t: Seq<Token>, p: int, acc: Seq<SStmt>) -> Result<Seq<SStmt>, Seq<char>>
    decreases t.len() - p,
{
    if p + 1 >= t.len() {
        Ok(acc)
    } else {
        let (d, p1) = decl(t, p);
        match d {
            None => Err("Unknown syntax."@),
            Some(SStmt::Unknown(msg)) => Err(msg),
            Some(x) => if p < p1 <= t.len() {
                program(t, p1, acc.push(x))
            } else {
                Err("Unknown syntax."@)
            },
        }
    }
}

} // verus!
