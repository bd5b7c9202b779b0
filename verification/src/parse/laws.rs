//! What the grammar builds, stated against the tokens it reads: operators are the ones
//! their tokens spell, an `if` keeps its condition and branches, a block keeps every
//! declaration in it.
use super::expr::{BinaryOperator, LiteralValue, SExpr, UnaryOperator};
use super::grammar::{
    assignment, at, binary, binary_rest, block_rest, call, call_args, decl, expression, level_index,
    level_op, operand, primary, program, stmt, tighter, unary, Level,
};
use super::stmt::SStmt;
use crate::lex::{Token, TokenKind};
use vstd::prelude::*;

verus! {

/// The binary operator a token of kind `k` spells: `and` and `or` for their keywords,
/// otherwise what converting the kind to an operator gives.
pub open spec fn spelled_op(k: TokenKind) -> Option<BinaryOperator> {
    if k == TokenKind::AND {
        Some(BinaryOperator::And)
    } else if k == TokenKind::OR {
        Some(BinaryOperator::Or)
    } else {
        match <BinaryOperator as vstd::std_specs::convert::TryFromSpec<TokenKind>>::try_from_spec(k) {
            Ok(op) => Some(op),
            Err(_) => None,
        }
    }
}

/// Every operator a level reads is the one its token spells: `>` is `Greater`, `+` is
/// `Add`, and so on.
pub proof fn law_level_operator_is_spelled(l: Level, k: TokenKind)
    ensures
        level_op(l, k) matches Some(op) ==> spelled_op(k) == Some(op),
{
}

/// After `lhs`, an operator token of level `l`, an operand `rhs` and no further operator
/// of that level, the result is `lhs op rhs` with `op` the operator the token spells.
pub proof fn law_binary_node_operator(
    l: Level,
    t: Seq<Token>,
    p: int,
    lhs: SExpr,
    rhs: SExpr,
    p2: int,
)
    requires
        0 <= p < t.len(),
        level_op(l, t[p].kind) is Some,
        operand(l, t, p + 1) == (Some(rhs), p2),
        p + 1 <= p2 < t.len(),
        level_op(l, t[p2].kind) is None,
    ensures
        binary_rest(l, t, p, lhs) == (
            Some(SExpr::Binary(Box::new(lhs), spelled_op(t[p].kind)->0, Box::new(rhs))),
            p2,
        ),
{
    law_level_operator_is_spelled(l, t[p].kind);
    let op = level_op(l, t[p].kind)->0;
    let node = SExpr::Binary(Box::new(lhs), op, Box::new(rhs));
    assert(at(t, p) == Some(t[p]));
    assert(at(t, p2) == Some(t[p2]));
    assert(binary_rest(l, t, p2, node) == (Some(node), p2));
    assert(binary_rest(l, t, p, lhs) == binary_rest(l, t, p2, node));
}

/// A statement that starts with `if` and parses to something other than an error is an
/// `if` node: its condition is the expression between the parentheses, its then-branch
/// the statement after `)`, and it has an else-branch exactly when `else` follows, that
/// branch being the statement after `else`.
pub proof fn law_if_statement(t: Seq<Token>, p: int)
    requires
        at(t, p) matches Some(tok) && tok.kind == TokenKind::IF,
        stmt(t, p).0 matches Some(s) && !(s is Unknown),
    ensures
        match stmt(t, p).0 {
            Some(SStmt::If(c, th, el)) => {
                let (ce, p1) = expression(t, p + 2);
                let (tb, p2) = stmt(t, p1 + 1);
                &&& at(t, p + 1) matches Some(open) && open.kind == TokenKind::LPAREN
                &&& ce == Some(c)
                &&& at(t, p1) matches Some(close) && close.kind == TokenKind::RPAREN
                &&& tb == Some(*th)
                &&& (el is Some <==> (at(t, p2) matches Some(e) && e.kind == TokenKind::ELSE))
                &&& (el matches Some(eb) ==> stmt(t, p2 + 1).0 == Some(*eb))
            },
            _ => false,
        },
{
}

/// A block's statements begin with the declarations already read.
proof fn lemma_block_prefix(t: Seq<Token>, p: int, stmts: Seq<SStmt>)
    ensures
        block_rest(t, p, stmts).0 matches Some(SStmt::Block(ss)) ==> stmts.len() <= ss.len()
            && ss.subrange(0, stmts.len() as int) == stmts,
    decreases t.len() - p,
{
    let (d, p1) = decl(t, p);
    match d {
        Some(x) => {
            if p < p1 <= t.len() {
                lemma_block_prefix(t, p1, stmts.push(x));
                if let Some(SStmt::Block(ss)) = block_rest(t, p, stmts).0 {
                    assert(ss.subrange(0, stmts.len() as int) =~= ss.subrange(
                        0,
                        (stmts.len() + 1) as int,
                    ).subrange(0, stmts.len() as int));
                    assert(stmts.push(x).subrange(0, stmts.len() as int) =~= stmts);
                }
            }
        },
        None => {
            if let Some(SStmt::Block(ss)) = block_rest(t, p, stmts).0 {
                assert(ss.subrange(0, stmts.len() as int) =~= stmts);
            }
        },
    }
}

/// A block keeps every declaration it reads: when a declaration parses at `p` after the
/// declarations `stmts` and the block ends well, that declaration is the block's next
/// statement, right after `stmts`.
pub proof fn law_block_keeps_each_declaration(t: Seq<Token>, p: int, stmts: Seq<SStmt>)
    requires
        decl(t, p).0 is Some,
        p < decl(t, p).1 <= t.len(),
        block_rest(t, p, stmts).0 matches Some(SStmt::Block(ss)),
    ensures
        block_rest(t, p, stmts).0 matches Some(SStmt::Block(ss)) && stmts.len() < ss.len()
            && ss.subrange(0, stmts.len() as int) == stmts && ss[stmts.len() as int] == decl(
            t,
            p,
        ).0->0,
{
    let (d, p1) = decl(t, p);
    let x = d->0;
    lemma_block_prefix(t, p1, stmts.push(x));
    if let Some(SStmt::Block(ss)) = block_rest(t, p, stmts).0 {
        assert(ss.subrange(0, (stmts.len() + 1) as int)[stmts.len() as int] == ss[stmts.len() as int]);
        assert(ss.subrange(0, stmts.len() as int) =~= ss.subrange(0, (stmts.len() + 1) as int).subrange(
            0,
            stmts.len() as int,
        ));
        assert(stmts.push(x).subrange(0, stmts.len() as int) =~= stmts);
    }
}

/// A prefix `-` or `!` builds a unary node with the operator its token spells, applied to
/// the unary expression after it.
pub proof fn law_unary_operator(t: Seq<Token>, p: int)
    requires
        0 <= p < t.len(),
        t[p].kind == TokenKind::MINUS || t[p].kind == TokenKind::BANG,
        unary(t, p).0 is Some,
    ensures
        unary(t, p).0 == Some(
            SExpr::Unary(
                <UnaryOperator as vstd::std_specs::convert::TryFromSpec<TokenKind>>::try_from_spec(
                    t[p].kind,
                )->Ok_0,
                Box::new(unary(t, p + 1).0->0),
            ),
        ),
        unary(t, p).1 == unary(t, p + 1).1,
{
    assert(at(t, p) == Some(t[p]));
}

/// A single token that is a literal or a name is read as that literal or that
/// variable, carrying the token's own span, and nothing more is consumed.
pub proof fn law_primary_token(t: Seq<Token>, p: int)
    requires
        0 <= p < t.len(),
    ensures
        t[p].kind == TokenKind::NUMBER ==> primary(t, p) == (
            Some(SExpr::Literal(LiteralValue::Number(t[p].span))),
            p + 1,
        ),
        t[p].kind == TokenKind::STRING ==> primary(t, p) == (
            Some(SExpr::Literal(LiteralValue::String(t[p].span))),
            p + 1,
        ),
        t[p].kind == TokenKind::IDENTIFIER ==> primary(t, p) == (
            Some(SExpr::Variable(t[p].span)),
            p + 1,
        ),
        t[p].kind == TokenKind::TRUE ==> primary(t, p) == (
            Some(SExpr::Literal(LiteralValue::True)),
            p + 1,
        ),
        t[p].kind == TokenKind::FALSE ==> primary(t, p) == (
            Some(SExpr::Literal(LiteralValue::False)),
            p + 1,
        ),
        t[p].kind == TokenKind::NIL ==> primary(t, p) == (
            Some(SExpr::Literal(LiteralValue::Nil)),
            p + 1,
        ),
{
    assert(at(t, p) == Some(t[p]));
}

/// A statement that starts with `while` and parses to something other than an error is
/// a `while` node: its condition is the expression between the parentheses and its body
/// the statement after `)`.
pub proof fn law_while_statement(t: Seq<Token>, p: int)
    requires
        at(t, p) matches Some(tok) && tok.kind == TokenKind::WHILE,
        stmt(t, p).0 matches Some(s) && !(s is Unknown),
    ensures
        match stmt(t, p).0 {
            Some(SStmt::While(c, body)) => {
                let (ce, p1) = expression(t, p + 2);
                &&& at(t, p + 1) matches Some(open) && open.kind == TokenKind::LPAREN
                &&& ce == Some(c)
                &&& at(t, p1) matches Some(close) && close.kind == TokenKind::RPAREN
                &&& stmt(t, p1 + 1).0 == Some(*body)
                &&& stmt(t, p).1 == stmt(t, p1 + 1).1
            },
            _ => false,
        },
{
}

/// A statement that starts with `print` and parses to something other than an error
/// prints the expression after `print`.
pub proof fn law_print_statement(t: Seq<Token>, p: int)
    requires
        at(t, p) matches Some(tok) && tok.kind == TokenKind::PRINT,
        stmt(t, p).0 matches Some(s) && !(s is Unknown),
    ensures
        stmt(t, p).0 == Some(SStmt::Print(expression(t, p + 1).0->0)),
        at(t, expression(t, p + 1).1) matches Some(semi) && semi.kind == TokenKind::SEMICOLON,
{
}

/// An argument list keeps every argument it reads, in order, and calls the callee it
/// was given.
proof fn lemma_call_args_prefix(t: Seq<Token>, p: int, callee: SExpr, args: Seq<SExpr>)
    ensures
        call_args(t, p, callee, args).0 is Some ==> call_args(t, p, callee, args).0->0 is Call,
        call_args(t, p, callee, args).0 matches Some(SExpr::Call(c, all)) ==> *c == callee
            && args.len() <= all.len() && all.subrange(0, args.len() as int) == args,
    decreases t.len() - p,
{
    if let Some(tok) = at(t, p) {
        if tok.kind == TokenKind::COMMA {
            let (a, p2) = expression(t, p + 1);
            if let Some(x) = a {
                if p + 1 <= p2 <= t.len() {
                    lemma_call_args_prefix(t, p2, callee, args.push(x));
                    if let Some(SExpr::Call(c, all)) = call_args(t, p, callee, args).0 {
                        assert(all.subrange(0, args.len() as int) =~= all.subrange(
                            0,
                            (args.len() + 1) as int,
                        ).subrange(0, args.len() as int));
                        assert(args.push(x).subrange(0, args.len() as int) =~= args);
                    }
                }
            }
        } else if tok.kind == TokenKind::RPAREN {
            assert(args.subrange(0, args.len() as int) =~= args);
        }
    }
}

/// A call keeps every argument it reads: after `,` an argument that parses, in a list
/// that ends well, is the call's next argument, right after `args`.
pub proof fn law_call_keeps_each_argument(
    t: Seq<Token>,
    p: int,
    callee: SExpr,
    args: Seq<SExpr>,
)
    requires
        at(t, p) matches Some(tok) && tok.kind == TokenKind::COMMA,
        expression(t, p + 1).0 is Some,
        p + 1 <= expression(t, p + 1).1 <= t.len(),
        call_args(t, p, callee, args).0 matches Some(SExpr::Call(c, all)),
    ensures
        call_args(t, p, callee, args).0 matches Some(SExpr::Call(c, all)) && *c == callee
            && args.len() < all.len() && all.subrange(0, args.len() as int) == args
            && all[args.len() as int] == expression(t, p + 1).0->0,
{
    let (a, p2) = expression(t, p + 1);
    let x = a->0;
    lemma_call_args_prefix(t, p2, callee, args.push(x));
    if let Some(SExpr::Call(c, all)) = call_args(t, p, callee, args).0 {
        assert(all.subrange(0, (args.len() + 1) as int)[args.len() as int] == all[args.len() as int]);
        assert(all.subrange(0, args.len() as int) =~= all.subrange(0, (args.len() + 1) as int).subrange(
            0,
            args.len() as int,
        ));
        assert(args.push(x).subrange(0, args.len() as int) =~= args);
    }
}

/// A program's statements begin with the declarations already read.
proof fn lemma_program_prefix(t: Seq<Token>, p: int, acc: Seq<SStmt>)
    ensures
        program(t, p, acc) matches Ok(all) ==> acc.len() <= all.len() && all.subrange(
            0,
            acc.len() as int,
        ) == acc,
    decreases t.len() - p,
{
    if p + 1 >= t.len() {
        assert(acc.subrange(0, acc.len() as int) =~= acc);
    } else {
        let (d, p1) = decl(t, p);
        if let Some(x) = d {
            if !(x is Unknown) && p < p1 <= t.len() {
                lemma_program_prefix(t, p1, acc.push(x));
                if let Ok(all) = program(t, p, acc) {
                    assert(all.subrange(0, acc.len() as int) =~= all.subrange(
                        0,
                        (acc.len() + 1) as int,
                    ).subrange(0, acc.len() as int));
                    assert(acc.push(x).subrange(0, acc.len() as int) =~= acc);
                }
            }
        }
    }
}

/// A program keeps every declaration it reads: when more than the final token is left
/// and a declaration parses there, and the program parses, that declaration is the
/// program's next statement, right after `acc`.
pub proof fn law_program_keeps_each_declaration(t: Seq<Token>, p: int, acc: Seq<SStmt>)
    requires
        p + 1 < t.len(),
        decl(t, p).0 is Some,
        p < decl(t, p).1 <= t.len(),
        program(t, p, acc) is Ok,
    ensures
        program(t, p, acc) matches Ok(all) && acc.len() < all.len() && all.subrange(
            0,
            acc.len() as int,
        ) == acc && all[acc.len() as int] == decl(t, p).0->0,
{
    let (d, p1) = decl(t, p);
    let x = d->0;
    lemma_program_prefix(t, p1, acc.push(x));
    if let Ok(all) = program(t, p, acc) {
        assert(all.subrange(0, (acc.len() + 1) as int)[acc.len() as int] == all[acc.len() as int]);
        assert(all.subrange(0, acc.len() as int) =~= all.subrange(0, (acc.len() + 1) as int).subrange(
            0,
            acc.len() as int,
        ));
        assert(acc.push(x).subrange(0, acc.len() as int) =~= acc);
    }
}

/// Operators of one level associate to the left: `a op1 b op2 c`, with no further
/// operator of the level after `c`, is `(a op1 b) op2 c`.
pub proof fn law_left_associative(
    l: Level,
    t: Seq<Token>,
    p: int,
    a: SExpr,
    b: SExpr,
    q: int,
    c: SExpr,
    r: int,
)
    requires
        0 <= p < t.len(),
        level_op(l, t[p].kind) is Some,
        operand(l, t, p + 1) == (Some(b), q),
        p + 1 <= q < t.len(),
        level_op(l, t[q].kind) is Some,
        operand(l, t, q + 1) == (Some(c), r),
        q + 1 <= r < t.len(),
        level_op(l, t[r].kind) is None,
    ensures
        binary_rest(l, t, p, a) == (
            Some(
                SExpr::Binary(
                    Box::new(SExpr::Binary(Box::new(a), spelled_op(t[p].kind)->0, Box::new(b))),
                    spelled_op(t[q].kind)->0,
                    Box::new(c),
                ),
            ),
            r,
        ),
{
    law_level_operator_is_spelled(l, t[p].kind);
    let ab = SExpr::Binary(Box::new(a), level_op(l, t[p].kind)->0, Box::new(b));
    assert(at(t, p) == Some(t[p]));
    assert(binary_rest(l, t, p, a) == binary_rest(l, t, q, ab));
    law_binary_node_operator(l, t, q, ab, c, r);
}

/// A parenthesised expression is a group of the expression inside, and ends after `)`.
pub proof fn law_group(t: Seq<Token>, p: int)
    requires
        0 <= p < t.len(),
        t[p].kind == TokenKind::LPAREN,
        primary(t, p).0 is Some,
    ensures
        primary(t, p).0 == Some(SExpr::Group(Box::new(expression(t, p + 1).0->0))),
        at(t, expression(t, p + 1).1) matches Some(close) && close.kind == TokenKind::RPAREN,
        primary(t, p).1 == expression(t, p + 1).1 + 1,
{
    assert(at(t, p) == Some(t[p]));
}

/// An assignment that parses assigns to the variable on the left of `=` the expression
/// on its right.
pub proof fn law_assignment(t: Seq<Token>, p: int)
    requires
        assignment(t, p).0 matches Some(SExpr::Assign(_, _)),
    ensures
        match assignment(t, p).0 {
            Some(SExpr::Assign(name, value)) => {
                let (target, p1) = binary(Level::Or, t, p);
                &&& target == Some(SExpr::Variable(name))
                &&& at(t, p1) matches Some(eq) && eq.kind == TokenKind::EQUAL
                &&& assignment(t, p1 + 1).0 == Some(*value)
            },
            _ => false,
        },
{
    let (e, p1) = binary(Level::Or, t, p);
    lemma_binary_not_assign(Level::Or, t, p);
    assert(e is Some);
    assert(at(t, p1) matches Some(eq) && eq.kind == TokenKind::EQUAL);
    assert(p <= p1);
    let (a, p2) = assignment(t, p1 + 1);
    assert(assignment(t, p).0 == match e->0 {
        SExpr::Variable(ident) => Some(SExpr::Assign(ident, Box::new(a->0))),
        _ => None,
    });
}

/// A declaration that starts with `var` and parses to something other than an error
/// declares the name after `var`, with the expression after `=` as its initializer when
/// `=` follows the name, and none otherwise.
pub proof fn law_var_declaration(t: Seq<Token>, p: int)
    requires
        0 <= p < t.len(),
        t[p].kind == TokenKind::VAR,
        decl(t, p).0 matches Some(s) && !(s is Unknown),
    ensures
        p + 2 < t.len(),
        t[p + 1].kind == TokenKind::IDENTIFIER,
        match decl(t, p).0 {
            Some(SStmt::VarDecl(name, init)) => {
                &&& name == t[p + 1].span
                &&& (init is Some <==> t[p + 2].kind == TokenKind::EQUAL)
                &&& (init matches Some(e) ==> expression(t, p + 3).0 == Some(e))
            },
            _ => false,
        },
{
    assert(at(t, p) == Some(t[p]));
}

/// A statement that starts with none of the statement keywords and parses to something
/// other than an error is the expression there, followed by `;`.
pub proof fn law_expression_statement(t: Seq<Token>, p: int)
    requires
        at(t, p) matches Some(tok) && tok.kind != TokenKind::PRINT && tok.kind != TokenKind::LBRACE
            && tok.kind != TokenKind::IF && tok.kind != TokenKind::WHILE && tok.kind
            != TokenKind::FOR,
        stmt(t, p).0 matches Some(s) && !(s is Unknown),
    ensures
        stmt(t, p).0 == Some(SStmt::Expr(expression(t, p).0->0)),
        at(t, expression(t, p).1) matches Some(semi) && semi.kind == TokenKind::SEMICOLON,
{
}

/// Below assignment, no expression is an assignment: a unary expression is not one.
proof fn lemma_unary_not_assign(t: Seq<Token>, p: int)
    ensures
        !(unary(t, p).0 matches Some(SExpr::Assign(_, _))),
{
    if let Some(tok) = at(t, p) {
        if !(tok.kind == TokenKind::BANG || tok.kind == TokenKind::MINUS) {
            let (e, p1) = primary(t, p);
            if let Some(callee) = e {
                if let Some(next) = at(t, p1) {
                    if next.kind == TokenKind::LPAREN && !(callee is Literal) && p <= p1 {
                        let (first, p2) = expression(t, p1 + 1);
                        let args = match first {
                            Some(a) => seq![a],
                            None => seq![],
                        };
                        if p1 + 1 <= p2 <= t.len() {
                            lemma_call_args_prefix(t, p2, callee, args);
                        }
                    }
                }
            }
            assert(unary(t, p) == call(t, p));
        }
    }
}

proof fn lemma_binary_rest_not_assign(l: Level, t: Seq<Token>, p: int, lhs: SExpr)
    requires
        !(lhs is Assign),
    ensures
        !(binary_rest(l, t, p, lhs).0 matches Some(SExpr::Assign(_, _))),
    decreases t.len() - p,
{
    if let Some(tok) = at(t, p) {
        if let Some(op) = level_op(l, tok.kind) {
            let (r, p2) = operand(l, t, p + 1);
            if let Some(rhs) = r {
                if p + 1 <= p2 <= t.len() {
                    lemma_binary_rest_not_assign(
                        l,
                        t,
                        p2,
                        SExpr::Binary(Box::new(lhs), op, Box::new(rhs)),
                    );
                }
            }
        }
    }
}

/// No chain of binary operators is an assignment.
proof fn lemma_binary_not_assign(l: Level, t: Seq<Token>, p: int)
    ensures
        !(binary(l, t, p).0 matches Some(SExpr::Assign(_, _))),
    decreases level_index(l),
{
    if l is Factor {
        lemma_unary_not_assign(t, p);
    } else {
        lemma_binary_not_assign(tighter(l), t, p);
    }
    let (e, p1) = operand(l, t, p);
    if let Some(lhs) = e {
        if p <= p1 <= t.len() {
            lemma_binary_rest_not_assign(l, t, p1, lhs);
        }
    }
}

} // verus!
