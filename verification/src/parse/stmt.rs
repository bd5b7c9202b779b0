use super::expr::{clone_expr, Expr, SExpr};
use crate::span::Span;
use vstd::prelude::*;

verus! {

#[derive(Debug, PartialEq)]
pub enum Stmt {
    VarDeclStmt { ident: Span, init_expr: Option<Expr> },
    FunDeclStmt { ident: Span, params: Vec<Span>, body: Box<Stmt> },
    BlockStmt { stmts: Vec<Stmt> },
    ExprStmt(Expr),
    PrintStmt(Expr),
    IfStmt { cond: Expr, then_branch: Box<Stmt>, else_branch: Option<Box<Stmt>> },
    WhileStmt { cond: Expr, body: Box<Stmt> },
    ReturnStmt(Expr),
    Unknown(String),
}

/// The mathematical form of a statement tree.
pub enum SStmt {
    VarDecl(Span, Option<SExpr>),
    FunDecl(Span, Seq<Span>, Box<SStmt>),
    Block(Seq<SStmt>),
    Expr(SExpr),
    Print(SExpr),
    If(SExpr, Box<SStmt>, Option<Box<SStmt>>),
    While(SExpr, Box<SStmt>),
    Return(SExpr),
    Unknown(Seq<char>),
}

pub open spec fn opt_expr_view(e: Option<Expr>) -> Option<SExpr> {
    match e {
        Some(x) => Some(x@),
        None => None,
    }
}

pub open spec fn stmt_view(s: Stmt) -> SStmt
    decreases s,
{
    match s {
        Stmt::VarDeclStmt { ident, init_expr } => SStmt::VarDecl(ident, opt_expr_view(init_expr)),
        Stmt::FunDeclStmt { ident, params, body } => SStmt::FunDecl(
            ident,
            params@,
            Box::new(stmt_view(*body)),
        ),
        Stmt::BlockStmt { stmts } => {
            proof {
                assert(decreases_to!(stmts => stmts@));
            }
            SStmt::Block(stmts_view(stmts@))
        },
        Stmt::ExprStmt(e) => SStmt::Expr(e@),
        Stmt::PrintStmt(e) => SStmt::Print(e@),
        Stmt::IfStmt { cond, then_branch, else_branch } => SStmt::If(
            cond@,
            Box::new(stmt_view(*then_branch)),
            match else_branch {
                Some(b) => Some(Box::new(stmt_view(*b))),
                None => None,
            },
        ),
        Stmt::WhileStmt { cond, body } => SStmt::While(cond@, Box::new(stmt_view(*body))),
        Stmt::ReturnStmt(e) => SStmt::Return(e@),
        Stmt::Unknown(msg) => SStmt::Unknown(msg@),
    }
}

/// The trees of a sequence of statements, in order.
pub open spec fn stmts_view(s: Seq<Stmt>) -> Seq<SStmt>
    decreases s,
{
    if s.len() == 0 {
        seq![]
    } else {
        proof {
            assert(decreases_to!(s => s.subrange(0, s.len() - 1)));
            assert(decreases_to!(s => s[s.len() - 1]));
        }
        stmts_view(s.subrange(0, s.len() - 1)).push(stmt_view(s[s.len() - 1]))
    }
}

pub proof fn lemma_stmts_view_push(s: Seq<Stmt>, x: Stmt)
    ensures
        stmts_view(s.push(x)) == stmts_view(s).push(x@),
{
    assert(s.push(x).subrange(0, s.len() as int) =~= s);
}

/// The trees of two statements in a row.
pub proof fn lemma_stmts_view_pair(s: Seq<Stmt>)
    requires
        s.len() == 2,
    ensures
        stmts_view(s) == seq![s[0]@, s[1]@],
{
    let first = s.subrange(0, 1);
    assert(first.subrange(0, 0) =~= Seq::<Stmt>::empty());
    assert(stmts_view(Seq::<Stmt>::empty()) =~= Seq::<SStmt>::empty());
    assert(stmts_view(first) =~= seq![s[0]@]);
    assert(stmts_view(s) =~= seq![s[0]@, s[1]@]);
}

/// Sequences of statements that are pointwise equal as trees are equal as trees.
pub proof fn lemma_stmts_view_pointwise(a: Seq<Stmt>, b: Seq<Stmt>)
    requires
        a.len() == b.len(),
        forall|k: int| 0 <= k < a.len() ==> #[trigger] a[k]@ == b[k]@,
    ensures
        stmts_view(a) == stmts_view(b),
    decreases a.len(),
{
    if a.len() > 0 {
        lemma_stmts_view_pointwise(a.subrange(0, a.len() - 1), b.subrange(0, b.len() - 1));
        assert(a[a.len() - 1]@ == b[b.len() - 1]@);
    }
}

impl View for Stmt {
    type V = SStmt;

    open spec fn view(&self) -> SStmt {
        stmt_view(*self)
    }
}

/// A copy of `s`, equal to it as a tree.
#[verifier::loop_isolation(false)]
pub fn clone_stmt(s: &Stmt) -> (r: Stmt)
    ensures
        r@ == s@,
    decreases s,
{
    match s {
        Stmt::VarDeclStmt { ident, init_expr } => Stmt::VarDeclStmt {
            ident: *ident,
            init_expr: match init_expr {
                Some(e) => Some(clone_expr(e)),
                None => None,
            },
        },
        Stmt::FunDeclStmt { ident, params, body } => {
            let mut ps: Vec<Span> = Vec::new();
            let mut i: usize = 0;
            while i < params.len()
                invariant
                    i <= params@.len(),
                    ps@ == params@.subrange(0, i as int),
                decreases params@.len() - i,
            {
                ps.push(params[i]);
                i = i + 1;
                assert(ps@ =~= params@.subrange(0, i as int));
            }
            assert(ps@ =~= params@);
            Stmt::FunDeclStmt { ident: *ident, params: ps, body: Box::new(clone_stmt(body)) }
        },
        Stmt::BlockStmt { stmts } => {
            let mut copies: Vec<Stmt> = Vec::new();
            let mut i: usize = 0;
            while i < stmts.len()
                invariant
                    i <= stmts@.len(),
                    copies@.len() == i,
                    forall|k: int| 0 <= k < i ==> #[trigger] copies@[k]@ == stmts@[k]@,
                decreases stmts@.len() - i,
            {
                proof {
                    assert(decreases_to!(*stmts => stmts[i as int]));
                    assert(decreases_to!(*s => stmts[i as int]));
                }
                copies.push(clone_stmt(&stmts[i]));
                i = i + 1;
            }
            proof {
                lemma_stmts_view_pointwise(copies@, stmts@);
            }
            Stmt::BlockStmt { stmts: copies }
        },
        Stmt::ExprStmt(e) => Stmt::ExprStmt(clone_expr(e)),
        Stmt::PrintStmt(e) => Stmt::PrintStmt(clone_expr(e)),
        Stmt::IfStmt { cond, then_branch, else_branch } => Stmt::IfStmt {
            cond: clone_expr(cond),
            then_branch: Box::new(clone_stmt(then_branch)),
            else_branch: match else_branch {
                Some(b) => Some(Box::new(clone_stmt(b))),
                None => None,
            },
        },
        Stmt::WhileStmt { cond, body } => Stmt::WhileStmt {
            cond: clone_expr(cond),
            body: Box::new(clone_stmt(body)),
        },
        Stmt::ReturnStmt(e) => Stmt::ReturnStmt(clone_expr(e)),
        Stmt::Unknown(msg) => Stmt::Unknown(msg.clone()),
    }
}

impl Clone for Stmt {
    fn clone(&self) -> (r: Self)
        ensures
            r@ == self@,
    {
        clone_stmt(self)
    }
}

} // verus!
