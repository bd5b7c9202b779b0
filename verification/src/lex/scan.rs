//! The lexical grammar, as spec functions over the characters of the source.
use super::token::{Token, TokenKind};
use crate::span::Span;
use crate::text::decimal;
use vstd::prelude::*;

verus! {

pub open spec fn is_digit_char(c: char) -> bool {
    '0' <= c && c <= '9'
}

pub open spec fn is_alpha_char(c: char) -> bool {
    ('a' <= c && c <= 'z') || ('A' <= c && c <= 'Z') || c == '_'
}

pub open spec fn is_ident_char(c: char) -> bool {
    is_alpha_char(c) || is_digit_char(c)
}

/// The first position at or after `p` that is the end of `s` or holds a character
/// that `keep` rejects.
pub open spec fn run_end(s: Seq<char>, p: int, keep: spec_fn(char) -> bool) -> int
    decreases s.len() - p,
{
    if 0 <= p < s.len() && keep(s[p]) {
        run_end(s, p + 1, keep)
    } else {
        p
    }
}

pub proof fn lemma_run_end(s: Seq<char>, p: int, keep: spec_fn(char) -> bool)
    requires
        0 <= p <= s.len(),
    ensures
        p <= run_end(s, p, keep) <= s.len(),
        forall|i: int| p <= i < run_end(s, p, keep) ==> keep(#[trigger] s[i]),
        run_end(s, p, keep) < s.len() ==> !keep(s[run_end(s, p, keep)]),
    decreases s.len() - p,
{
    if p < s.len() && keep(s[p]) {
        lemma_run_end(s, p + 1, keep);
    }
}

pub open spec fn digit_pred() -> spec_fn(char) -> bool {
    |c: char| is_digit_char(c)
}

pub open spec fn ident_pred() -> spec_fn(char) -> bool {
    |c: char| is_ident_char(c)
}

pub open spec fn not_newline_pred() -> spec_fn(char) -> bool {
    |c: char| c != '\n'
}

pub open spec fn not_quote_pred() -> spec_fn(char) -> bool {
    |c: char| c != '"'
}

pub open spec fn digit_run(s: Seq<char>, p: int) -> int {
    run_end(s, p, digit_pred())
}

pub open spec fn ident_run(s: Seq<char>, p: int) -> int {
    run_end(s, p, ident_pred())
}

/// Where a line comment starting before `p` ends: at the next newline, which it
/// leaves in place, or at the end of the source.
pub open spec fn comment_run(s: Seq<char>, p: int) -> int {
    run_end(s, p, not_newline_pred())
}

/// The position of the next double quote at or after `p`, or the end of the source.
pub open spec fn quote_run(s: Seq<char>, p: int) -> int {
    run_end(s, p, not_quote_pred())
}

pub proof fn lemma_digit_run(s: Seq<char>, p: int)
    requires
        0 <= p <= s.len(),
    ensures
        p <= digit_run(s, p) <= s.len(),
        forall|i: int| p <= i < digit_run(s, p) ==> is_digit_char(#[trigger] s[i]),
        digit_run(s, p) < s.len() ==> !is_digit_char(s[digit_run(s, p)]),
{
    lemma_run_end(s, p, digit_pred());
}

pub proof fn lemma_ident_run(s: Seq<char>, p: int)
    requires
        0 <= p <= s.len(),
    ensures
        p <= ident_run(s, p) <= s.len(),
        forall|i: int| p <= i < ident_run(s, p) ==> is_ident_char(#[trigger] s[i]),
        ident_run(s, p) < s.len() ==> !is_ident_char(s[ident_run(s, p)]),
{
    lemma_run_end(s, p, ident_pred());
}

pub proof fn lemma_comment_run(s: Seq<char>, p: int)
    requires
        0 <= p <= s.len(),
    ensures
        p <= comment_run(s, p) <= s.len(),
        forall|i: int| p <= i < comment_run(s, p) ==> #[trigger] s[i] != '\n',
        comment_run(s, p) < s.len() ==> s[comment_run(s, p)] == '\n',
{
    lemma_run_end(s, p, not_newline_pred());
}

pub proof fn lemma_quote_run(s: Seq<char>, p: int)
    requires
        0 <= p <= s.len(),
    ensures
        p <= quote_run(s, p) <= s.len(),
        forall|i: int| p <= i < quote_run(s, p) ==> #[trigger] s[i] != '"',
        quote_run(s, p) < s.len() ==> s[quote_run(s, p)] == '"',
{
    lemma_run_end(s, p, not_quote_pred());
}

/// The number of newlines among the characters at positions `a..b`.
pub open spec fn newlines(s: Seq<char>, a: int, b: int) -> int
    decreases b - a,
{
    if b <= a {
        0
    } else {
        newlines(s, a, b - 1) + if s[b - 1] == '\n' {
            1int
        } else {
            0int
        }
    }
}

/// The end of a number literal whose first digit is at `p`, or `None` when a
/// `.` after the digits is followed by a character that is not a digit.
pub open spec fn number_end(s: Seq<char>, p: int) -> Option<int> {
    let q = digit_run(s, p + 1);
    if q < s.len() && s[q] == '.' {
        if q + 1 < s.len() && !is_digit_char(s[q + 1]) {
            None
        } else {
            Some(digit_run(s, q + 1))
        }
    } else {
        Some(q)
    }
}

/// The keyword spelled by `w`, where it spells one.
pub open spec fn keyword(w: Seq<char>) -> Option<TokenKind> {
    if w == "true"@ {
        Some(TokenKind::TRUE)
    } else if w == "false"@ {
        Some(TokenKind::FALSE)
    } else if w == "nil"@ {
        Some(TokenKind::NIL)
    } else if w == "var"@ {
        Some(TokenKind::VAR)
    } else if w == "or"@ {
        Some(TokenKind::OR)
    } else if w == "and"@ {
        Some(TokenKind::AND)
    } else if w == "if"@ {
        Some(TokenKind::IF)
    } else if w == "else"@ {
        Some(TokenKind::ELSE)
    } else if w == "for"@ {
        Some(TokenKind::FOR)
    } else if w == "while"@ {
        Some(TokenKind::WHILE)
    } else if w == "fun"@ {
        Some(TokenKind::FUN)
    } else if w == "return"@ {
        Some(TokenKind::RETURN)
    } else if w == "class"@ {
        Some(TokenKind::CLASS)
    } else if w == "super"@ {
        Some(TokenKind::SUPER)
    } else if w == "this"@ {
        Some(TokenKind::THIS)
    } else if w == "print"@ {
        Some(TokenKind::PRINT)
    } else {
        None
    }
}

/// The kind of a word made of identifier characters: a keyword's kind, or `IDENTIFIER`.
pub open spec fn word_kind(w: Seq<char>) -> TokenKind {
    match keyword(w) {
        Some(k) => k,
        None => TokenKind::IDENTIFIER,
    }
}

/// Whether a word at character positions `a..b` of `s` can be looked up as a keyword:
/// the lookup reads the source's UTF-8 bytes with those positions taken as byte
/// offsets, so both must fall on character boundaries there.
pub open spec fn word_sliceable(s: Seq<char>, a: int, b: int) -> bool {
    &&& 0 <= a <= b <= vstd::utf8::encode_utf8(s).len()
    &&& vstd::utf8::is_char_boundary(vstd::utf8::encode_utf8(s), a)
    &&& vstd::utf8::is_char_boundary(vstd::utf8::encode_utf8(s), b)
}

/// What the keyword lookup of a word at character positions `a..b` of `s` reads: the
/// characters of the source's UTF-8 bytes from offset `a` to offset `b`. In an ASCII
/// source these are the word's own characters; after other characters they are not.
pub open spec fn byte_word(s: Seq<char>, a: int, b: int) -> Seq<char> {
    vstd::utf8::decode_utf8(vstd::utf8::encode_utf8(s).subrange(a, b))
}

/// The kind of a token made of the single character `c` alone, where there is one.
pub open spec fn single_kind(c: char) -> Option<TokenKind> {
    if c == '(' {
        Some(TokenKind::LPAREN)
    } else if c == ')' {
        Some(TokenKind::RPAREN)
    } else if c == '{' {
        Some(TokenKind::LBRACE)
    } else if c == '}' {
        Some(TokenKind::RBRACE)
    } else if c == ',' {
        Some(TokenKind::COMMA)
    } else if c == '.' {
        Some(TokenKind::DOT)
    } else if c == ';' {
        Some(TokenKind::SEMICOLON)
    } else if c == '+' {
        Some(TokenKind::PLUS)
    } else if c == '-' {
        Some(TokenKind::MINUS)
    } else if c == '*' {
        Some(TokenKind::STAR)
    } else {
        None
    }
}

/// For an operator character that may be followed by `=`: the kinds with and without it.
pub open spec fn equal_pair(c: char) -> Option<(TokenKind, TokenKind)> {
    if c == '=' {
        Some((TokenKind::EEQUAL, TokenKind::EQUAL))
    } else if c == '!' {
        Some((TokenKind::BEQUAL, TokenKind::BANG))
    } else if c == '>' {
        Some((TokenKind::RANGLEEQUAL, TokenKind::RANGLE))
    } else if c == '<' {
        Some((TokenKind::LANGLEEQUAL, TokenKind::LANGLE))
    } else {
        None
    }
}

pub open spec fn tok(kind: TokenKind, start: int, end: int, line: int) -> Token {
    Token { kind, span: Span { start: start as usize, end: end as usize }, line: line as usize }
}

/// Why lexing stops without a token list.
pub enum LexFailure {
    UnclosedString,
    EmptyFraction,
    UnknownChar { line: nat, pos: nat },
    /// A word whose keyword lookup cannot cut it out of the source (see
    /// `word_sliceable`); lexing is not defined on such a source.
    WordOffBoundary { pos: nat },
}

pub open spec fn failure_message(f: LexFailure) -> Seq<char> {
    match f {
        LexFailure::UnclosedString => "unclosing quotes"@,
        LexFailure::EmptyFraction => "empty number fraction"@,
        LexFailure::UnknownChar { line, pos } => decimal(line) + ":"@ + decimal(pos)
            + ": unknown character"@,
        LexFailure::WordOffBoundary { pos } => decimal(pos) + ": word off a character boundary"@,
    }
}

/// Lexing `s` from position `p` on line `line`, after the tokens `acc`.
pub open spec fn lex_from(s: Seq<char>, p: int, line: int, acc: Seq<Token>) -> Result<
    Seq<Token>,
    LexFailure,
>
    decreases s.len() - p,
{
    if p < 0 || p >= s.len() {
        Ok(acc.push(tok(TokenKind::EOF, p, p, line)))
    } else {
        let c = s[p];
        if c == ' ' || c == '\r' || c == '\t' {
            lex_from(s, p + 1, line, acc)
        } else if c == '\n' {
            lex_from(s, p + 1, line + 1, acc)
        } else if single_kind(c) is Some {
            lex_from(s, p + 1, line, acc.push(tok(single_kind(c)->0, p, p + 1, line)))
        } else if c == '/' {
            if p + 1 < s.len() && s[p + 1] == '/' {
                let q = comment_run(s, p + 2);
                proof {
                    lemma_comment_run(s, p + 2);
                }
                lex_from(s, q, line, acc.push(tok(TokenKind::COMMENT, p, q, line)))
            } else {
                lex_from(s, p + 1, line, acc.push(tok(TokenKind::SLASH, p, p + 1, line)))
            }
        } else if equal_pair(c) is Some {
            let (long, short) = equal_pair(c)->0;
            if p + 1 < s.len() && s[p + 1] == '=' {
                lex_from(s, p + 2, line, acc.push(tok(long, p, p + 2, line)))
            } else {
                lex_from(s, p + 1, line, acc.push(tok(short, p, p + 1, line)))
            }
        } else if c == '"' {
            let q = quote_run(s, p + 1);
            proof {
                lemma_quote_run(s, p + 1);
            }
            if q >= s.len() {
                Err(LexFailure::UnclosedString)
            } else {
                let l2 = line + newlines(s, p + 1, q);
                lex_from(s, q + 1, l2, acc.push(tok(TokenKind::STRING, p, q + 1, l2)))
            }
        } else if is_digit_char(c) {
            proof {
                lemma_number_end(s, p);
            }
            match number_end(s, p) {
                None => Err(LexFailure::EmptyFraction),
                Some(q) => lex_from(s, q, line, acc.push(tok(TokenKind::NUMBER, p, q, line))),
            }
        } else if is_alpha_char(c) {
            let q = ident_run(s, p + 1);
            proof {
                lemma_ident_run(s, p + 1);
            }
            if word_sliceable(s, p, q) {
                lex_from(s, q, line, acc.push(tok(word_kind(byte_word(s, p, q)), p, q, line)))
            } else {
                Err(LexFailure::WordOffBoundary { pos: p as nat })
            }
        } else {
            Err(LexFailure::UnknownChar { line: line as nat, pos: p as nat })
        }
    }
}

pub proof fn lemma_number_end(s: Seq<char>, p: int)
    requires
        0 <= p < s.len(),
    ensures
        number_end(s, p) matches Some(q) ==> p < q <= s.len(),
{
    lemma_digit_run(s, p + 1);
    let q = digit_run(s, p + 1);
    if q < s.len() && s[q] == '.' {
        lemma_digit_run(s, q + 1);
    }
}

/// The tokens of the whole source `s`, or why there are none.
pub open spec fn lex_spec(s: Seq<char>) -> Result<Seq<Token>, LexFailure> {
    lex_from(s, 0, 1, seq![])
}

} // verus!
