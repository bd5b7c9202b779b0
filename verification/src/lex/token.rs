use crate::span::Span;
use vstd::prelude::*;

verus! {

/// The kinds of token the lexer produces.
#[derive(Debug, Clone, Copy, PartialEq, Eq, Structural)]
pub enum TokenKind {
    LPAREN,
    RPAREN,
    LBRACE,
    RBRACE,
    COMMA,
    DOT,
    SEMICOLON,
    PLUS,
    MINUS,
    SLASH,
    STAR,
    EQUAL,
    EEQUAL,
    BANG,
    BEQUAL,
    RANGLE,
    RANGLEEQUAL,
    LANGLE,
    LANGLEEQUAL,
    // keywords
    TRUE,
    FALSE,
    NIL,
    VAR,
    OR,
    AND,
    IF,
    ELSE,
    FOR,
    WHILE,
    FUN,
    RETURN,
    CLASS,
    SUPER,
    THIS,
    PRINT,
    // literals
    IDENTIFIER,
    STRING,
    NUMBER,
    EOF,
    // misc
    COMMENT,
}

/// A token: its kind, the character positions it covers, and the line it ends on.
#[derive(Debug, Clone, Copy, PartialEq, Eq, Structural)]
pub struct Token {
    pub kind: TokenKind,
    pub span: Span,
    pub line: usize,
}

impl Token {
    pub fn new(kind: TokenKind, span: (usize, usize), line: usize) -> (t: Token)
        ensures
            t == (Token { kind, span: Span { start: span.0, end: span.1 }, line }),
    {
        Token { kind, span: Span::new(span.0, span.1), line: line }
    }
}

} // verus!
