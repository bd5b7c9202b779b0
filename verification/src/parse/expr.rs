use crate::lex::TokenKind;
use crate::span::Span;
use vstd::prelude::*;

verus! {

#[derive(Debug, PartialEq, Eq, Structural, Clone, Copy)]
pub enum LiteralValue {
    Number(Span),
    String(Span),
    True,
    False,
    Nil,
}

#[derive(Debug, PartialEq, Eq, Structural, Clone, Copy)]
pub enum UnaryOperator {
    Negative,
    Not,
}

impl TryFrom<TokenKind> for UnaryOperator {
    type Error = &'static str;

    fn try_from(value: TokenKind) -> (r: Result<Self, Self::Error>) {
        match value {
            TokenKind::MINUS => Ok(Self::Negative),
            TokenKind::BANG => Ok(Self::Not),
            _ => Err("expect unary operator"),
        }
    }
}

impl vstd::std_specs::convert::TryFromSpecImpl<TokenKind> for UnaryOperator {
    open spec fn obeys_try_from_spec() -> bool {
        true
    }

    open spec fn try_from_spec(value: TokenKind) -> Result<Self, Self::Error> {
        match value {
            TokenKind::MINUS => Ok(Self::Negative),
            TokenKind::BANG => Ok(Self::Not),
            _ => Err("expect unary operator"),
        }
    }
}

#[derive(Debug, PartialEq, Eq, Structural, Clone, Copy)]
pub enum BinaryOperator {
    Add,
    Minus,
    Multiply,
    Divide,
    Equal,
    NotEqual,
    Less,
    LessEqual,
    Greater,
    GreaterEqual,
    Or,
    And,
}

impl TryFrom<TokenKind> for BinaryOperator {
    type Error = &'static str;

    fn try_from(value: TokenKind) -> (r: Result<Self, Self::Error>) {
        match value {
            TokenKind::EEQUAL => Ok(Self::Equal),
            TokenKind::BEQUAL => Ok(Self::NotEqual),
            TokenKind::LANGLE => Ok(Self::Less),
            TokenKind::LANGLEEQUAL => Ok(Self::LessEqual),
            TokenKind::RANGLE => Ok(Self::Greater),
            TokenKind::RANGLEEQUAL => Ok(Self::GreaterEqual),
            TokenKind::PLUS => Ok(Self::Add),
            TokenKind::MINUS => Ok(Self::Minus),
            TokenKind::STAR => Ok(Self::Multiply),
            TokenKind::SLASH => Ok(Self::Divide),
            _ => Err("expected binary operator"),
        }
    }
}

impl vstd::std_specs::convert::TryFromSpecImpl<TokenKind> for BinaryOperator {
    open spec fn obeys_try_from_spec() -> bool {
        true
    }

    open spec fn try_from_spec(value: TokenKind) -> Result<Self, Self::Error> {
        match value {
            TokenKind::EEQUAL => Ok(Self::Equal),
            TokenKind::BEQUAL => Ok(Self::NotEqual),
            TokenKind::LANGLE => Ok(Self::Less),
            TokenKind::LANGLEEQUAL => Ok(Self::LessEqual),
            TokenKind::RANGLE => Ok(Self::Greater),
            TokenKind::RANGLEEQUAL => Ok(Self::GreaterEqual),
            TokenKind::PLUS => Ok(Self::Add),
            TokenKind::MINUS => Ok(Self::Minus),
            TokenKind::STAR => Ok(Self::Multiply),
            TokenKind::SLASH => Ok(Self::Divide),
            _ => Err("expected binary operator"),
        }
    }
}

#[derive(Debug, PartialEq)]
pub enum Expr {
    Literal { value: LiteralValue },
    Group { inner: Box<Expr> },
    Unary { op: UnaryOperator, expr: Box<Expr> },
    Binary { left: Box<Expr>, op: BinaryOperator, right: Box<Expr> },
    Variable { ident: Span },
    Assign { ident: Span, expr: Box<Expr> },
    Call { callee: Box<Expr>, args: Vec<Expr> },
}

/// The mathematical form of an expression tree: `Expr` with sequences for argument lists.
pub enum SExpr {
    Literal(LiteralValue),
    Group(Box<SExpr>),
    Unary(UnaryOperator, Box<SExpr>),
    Binary(Box<SExpr>, BinaryOperator, Box<SExpr>),
    Variable(Span),
    Assign(Span, Box<SExpr>),
    Call(Box<SExpr>, Seq<SExpr>),
}

pub open spec fn expr_view(e: Expr) -> SExpr
    decreases e,
{
    match e {
        Expr::Literal { value } => SExpr::Literal(value),
        Expr::Group { inner } => SExpr::Group(Box::new(expr_view(*inner))),
        Expr::Unary { op, expr } => SExpr::Unary(op, Box::new(expr_view(*expr))),
        Expr::Binary { left, op, right } => SExpr::Binary(
            Box::new(expr_view(*left)),
            op,
            Box::new(expr_view(*right)),
        ),
        Expr::Variable { ident } => SExpr::Variable(ident),
        Expr::Assign { ident, expr } => SExpr::Assign(ident, Box::new(expr_view(*expr))),
        Expr::Call { callee, args } => {
            proof {
                assert(decreases_to!(args => args@));
            }
            SExpr::Call(Box::new(expr_view(*callee)), exprs_view(args@))
        },
    }
}

/// The trees of a sequence of expressions, in order.
pub open spec fn exprs_view(s: Seq<Expr>) -> Seq<SExpr>
    decreases s,
{
    if s.len() == 0 {
        seq![]
    } else {
        proof {
            assert(decreases_to!(s => s.subrange(0, s.len() - 1)));
            assert(decreases_to!(s => s[s.len() - 1]));
        }
        exprs_view(s.subrange(0, s.len() - 1)).push(expr_view(s[s.len() - 1]))
    }
}

pub proof fn lemma_exprs_view_push(s: Seq<Expr>, e: Expr)
    ensures
        exprs_view(s.push(e)) == exprs_view(s).push(e@),
{
    assert(s.push(e).subrange(0, s.len() as int) =~= s);
}

impl View for Expr {
    type V = SExpr;

    open spec fn view(&self) -> SExpr {
        expr_view(*self)
    }
}

/// Sequences of expressions that are pointwise equal as trees are equal as trees.
pub proof fn lemma_exprs_view_pointwise(a: Seq<Expr>, b: Seq<Expr>)
    requires
        a.len() == b.len(),
        forall|k: int| 0 <= k < a.len() ==> #[trigger] a[k]@ == b[k]@,
    ensures
        exprs_view(a) == exprs_view(b),
    decreases a.len(),
{
    if a.len() > 0 {
        lemma_exprs_view_pointwise(a.subrange(0, a.len() - 1), b.subrange(0, b.len() - 1));
        assert(a[a.len() - 1]@ == b[b.len() - 1]@);
    }
}

/// A copy of `e`, equal to it as a tree.
#[verifier::loop_isolation(false)]
pub fn clone_expr(e: &Expr) -> (r: Expr)
    ensures
        r@ == e@,
    decreases e,
{
    match e {
        Expr::Literal { value } => Expr::Literal { value: *value },
        Expr::Group { inner } => Expr::Group { inner: Box::new(clone_expr(inner)) },
        Expr::Unary { op, expr } => Expr::Unary { op: *op, expr: Box::new(clone_expr(expr)) },
        Expr::Binary { left, op, right } => Expr::Binary {
            left: Box::new(clone_expr(left)),
            op: *op,
            right: Box::new(clone_expr(right)),
        },
        Expr::Variable { ident } => Expr::Variable { ident: *ident },
        Expr::Assign { ident, expr } => Expr::Assign {
            ident: *ident,
            expr: Box::new(clone_expr(expr)),
        },
        Expr::Call { callee, args } => {
            let mut copies: Vec<Expr> = Vec::new();
            let mut i: usize = 0;
            while i < args.len()
                invariant
                    i <= args@.len(),
                    copies@.len() == i,
                    forall|k: int| 0 <= k < i ==> #[trigger] copies@[k]@ == args@[k]@,
                decreases args@.len() - i,
            {
                proof {
                    assert(decreases_to!(*args => args[i as int]));
                    assert(decreases_to!(*e => args[i as int]));
                }
                copies.push(clone_expr(&args[i]));
                i = i + 1;
            }
            let r = Expr::Call { callee: Box::new(clone_expr(callee)), args: copies };
            proof {
                assert(exprs_view(copies@) == exprs_view(args@)) by {
                    lemma_exprs_view_pointwise(copies@, args@);
                }
            }
            r
        },
    }
}

impl Clone for Expr {
    fn clone(&self) -> (r: Self)
        ensures
            r@ == self@,
    {
        clone_expr(self)
    }
}

} // verus!
