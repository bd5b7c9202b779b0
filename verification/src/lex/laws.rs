//! What every token list that lexing produces has in common.
use super::scan::{
    comment_run, digit_run, equal_pair, ident_run, is_digit_char, is_ident_char, lemma_comment_run,
    lemma_digit_run, lemma_ident_run, lemma_number_end, lemma_quote_run, lex_from, lex_spec,
    newlines, number_end, quote_run, single_kind, word_kind, LexFailure, keyword, is_alpha_char,
};
use super::token::{Token, TokenKind};
use vstd::prelude::*;

verus! {

/// Counting newlines over `a..c` is counting them over `a..b` and over `b..c`.
pub proof fn lemma_newlines_split(s: Seq<char>, a: int, b: int, c: int)
    requires
        a <= b <= c,
    ensures
        newlines(s, a, c) == newlines(s, a, b) + newlines(s, b, c),
    decreases c - b,
{
    if b < c {
        lemma_newlines_split(s, a, b, c - 1);
    }
}

pub proof fn lemma_newlines_bounds(s: Seq<char>, a: int, b: int)
    requires
        a <= b,
    ensures
        0 <= newlines(s, a, b) <= b - a,
    decreases b - a,
{
    if a < b {
        lemma_newlines_bounds(s, a, b - 1);
    }
}

/// A range without newline characters holds no newlines.
pub proof fn lemma_newlines_none(s: Seq<char>, a: int, b: int)
    requires
        a <= b,
        forall|i: int| a <= i < b ==> #[trigger] s[i] != '\n',
    ensures
        newlines(s, a, b) == 0,
    decreases b - a,
{
    if a < b {
        lemma_newlines_none(s, a, b - 1);
    }
}

/// The kind of the token of `s` at `a..b`, told by its text: by its first character,
/// its length, and for a word the keyword it is looked up as (see `byte_word`).
pub open spec fn kind_of_text(s: Seq<char>, a: int, b: int) -> TokenKind {
    let w = s.subrange(a, b);
    if w.len() == 0 {
        TokenKind::EOF
    } else {
        let c = w[0];
        if single_kind(c) is Some {
            single_kind(c)->0
        } else if c == '/' {
            if w.len() >= 2 {
                TokenKind::COMMENT
            } else {
                TokenKind::SLASH
            }
        } else if equal_pair(c) is Some {
            let (long, short) = equal_pair(c)->0;
            if w.len() >= 2 {
                long
            } else {
                short
            }
        } else if c == '"' {
            TokenKind::STRING
        } else if is_digit_char(c) {
            TokenKind::NUMBER
        } else {
            word_kind(super::scan::byte_word(s, a, b))
        }
    }
}

/// The characters a token covers.
pub open spec fn text_of(s: Seq<char>, t: Token) -> Seq<char> {
    s.subrange(t.span.start as int, t.span.end as int)
}

/// The shape of a token list of the source `s`: spans within the source, each ending
/// where the next may start; the line of each token is one more than the number of
/// newlines before its end; only the last token is `EOF`, and it is empty and at the end.
pub open spec fn well_formed_tokens(s: Seq<char>, toks: Seq<Token>) -> bool {
    &&& toks.len() >= 1
    &&& forall|i: int|
        0 <= i < toks.len() ==> (#[trigger] toks[i]).span.start <= toks[i].span.end <= s.len()
    &&& forall|i: int, j: int|
        0 <= i < j < toks.len() ==> (#[trigger] toks[i]).span.end <= (#[trigger] toks[j]).span.start
    &&& forall|i: int|
        0 <= i < toks.len() ==> (#[trigger] toks[i]).line == 1 + newlines(s, 0, toks[i].span.end as int)
    &&& forall|i: int| 0 <= i < toks.len() - 1 ==> (#[trigger] toks[i]).kind != TokenKind::EOF
    &&& forall|i: int|
        0 <= i < toks.len() - 1 ==> (#[trigger] toks[i]).span.start < toks[i].span.end
    &&& forall|i: int|
        0 <= i < toks.len() ==> kind_of_text(s, (#[trigger] toks[i]).span.start as int, toks[i].span.end as int) == toks[i].kind
    &&& toks.last().kind == TokenKind::EOF
    &&& toks.last().span.start == s.len()
    &&& toks.last().span.end == s.len()
}

/// What holds of the tokens lexed so far, at position `p` on line `line`.
pub open spec fn lexed_so_far(s: Seq<char>, p: int, line: int, acc: Seq<Token>) -> bool {
    &&& 0 <= p <= s.len()
    &&& s.len() < usize::MAX
    &&& line == 1 + newlines(s, 0, p)
    &&& forall|i: int|
        0 <= i < acc.len() ==> (#[trigger] acc[i]).span.start < acc[i].span.end <= p
    &&& forall|i: int, j: int|
        0 <= i < j < acc.len() ==> (#[trigger] acc[i]).span.end <= (#[trigger] acc[j]).span.start
    &&& forall|i: int|
        0 <= i < acc.len() ==> (#[trigger] acc[i]).line == 1 + newlines(s, 0, acc[i].span.end as int)
    &&& forall|i: int| 0 <= i < acc.len() ==> (#[trigger] acc[i]).kind != TokenKind::EOF
    &&& forall|i: int|
        0 <= i < acc.len() ==> kind_of_text(s, (#[trigger] acc[i]).span.start as int, acc[i].span.end as int) == acc[i].kind
}

/// Appending a token that starts at or after `p0` and ends at `p` keeps the shape.
proof fn lemma_push(s: Seq<char>, p0: int, p: int, acc: Seq<Token>, t: Token)
    requires
        lexed_so_far(s, p0, 1 + newlines(s, 0, p0), acc),
        p0 <= t.span.start < t.span.end,
        t.span.end == p <= s.len(),
        t.line == 1 + newlines(s, 0, p),
        t.kind != TokenKind::EOF,
        kind_of_text(s, t.span.start as int, t.span.end as int) == t.kind,
    ensures
        lexed_so_far(s, p, 1 + newlines(s, 0, p), acc.push(t)),
{
    let acc2 = acc.push(t);
    assert forall|i: int, j: int| 0 <= i < j < acc2.len() implies (#[trigger] acc2[i]).span.end
        <= (#[trigger] acc2[j]).span.start by {
        assert(acc2[i] == acc[i]);
        if j < acc.len() {
            assert(acc2[j] == acc[j]);
        }
    }
    assert forall|i: int| 0 <= i < acc2.len() implies (#[trigger] acc2[i]).span.start
        < acc2[i].span.end <= p by {
        if i < acc.len() {
            assert(acc2[i] == acc[i]);
        }
    }
    assert forall|i: int| 0 <= i < acc2.len() implies (#[trigger] acc2[i]).line == 1 + newlines(
        s,
        0,
        acc2[i].span.end as int,
    ) by {
        if i < acc.len() {
            assert(acc2[i] == acc[i]);
        }
    }
    assert forall|i: int| 0 <= i < acc2.len() implies (#[trigger] acc2[i]).kind
        != TokenKind::EOF by {
        if i < acc.len() {
            assert(acc2[i] == acc[i]);
        }
    }
    assert forall|i: int| 0 <= i < acc2.len() implies kind_of_text(s, (#[trigger] acc2[i]).span.start as int, acc2[i].span.end as int)
        == acc2[i].kind by {
        if i < acc.len() {
            assert(acc2[i] == acc[i]);
        }
    }
}

/// Moving over characters that are not newlines keeps the line.
proof fn lemma_no_newline_step(s: Seq<char>, p: int, q: int)
    requires
        0 <= p <= q <= s.len(),
        forall|i: int| p <= i < q ==> #[trigger] s[i] != '\n',
    ensures
        newlines(s, 0, q) == newlines(s, 0, p),
{
    lemma_newlines_split(s, 0, p, q);
    lemma_newlines_none(s, p, q);
}

proof fn lemma_lex_from_shape(s: Seq<char>, p: int, line: int, acc: Seq<Token>)
    requires
        lexed_so_far(s, p, line, acc),
    ensures
        lex_from(s, p, line, acc) matches Ok(toks) ==> well_formed_tokens(s, toks),
    decreases s.len() - p,
{
    lemma_newlines_bounds(s, 0, p);
    if p >= s.len() {
        let toks = acc.push(
            Token {
                kind: TokenKind::EOF,
                span: crate::span::Span { start: p as usize, end: p as usize },
                line: line as usize,
            },
        );
        assert(lex_from(s, p, line, acc) == Ok::<Seq<Token>, LexFailure>(toks));
        assert forall|i: int, j: int| 0 <= i < j < toks.len() implies (#[trigger] toks[i]).span.end
            <= (#[trigger] toks[j]).span.start by {
            assert(toks[i] == acc[i]);
            if j < acc.len() {
                assert(toks[j] == acc[j]);
            }
        }
        assert forall|i: int| 0 <= i < toks.len() implies (#[trigger] toks[i]).span.start
            <= toks[i].span.end <= s.len() by {
            if i < acc.len() {
                assert(toks[i] == acc[i]);
            }
        }
        assert forall|i: int| 0 <= i < toks.len() implies (#[trigger] toks[i]).line == 1
            + newlines(s, 0, toks[i].span.end as int) by {
            if i < acc.len() {
                assert(toks[i] == acc[i]);
            }
        }
        assert forall|i: int| 0 <= i < toks.len() - 1 implies (#[trigger] toks[i]).kind
            != TokenKind::EOF by {
            assert(toks[i] == acc[i]);
        }
        assert forall|i: int| 0 <= i < toks.len() - 1 implies (#[trigger] toks[i]).span.start
            < toks[i].span.end by {
            assert(toks[i] == acc[i]);
        }
        assert forall|i: int| 0 <= i < toks.len() implies kind_of_text(s, (#[trigger] toks[i]).span.start as int, toks[i].span.end as int)
            == toks[i].kind by {
            if i < acc.len() {
                assert(toks[i] == acc[i]);
            } else {
                assert(text_of(s, toks[i]).len() == 0);
            }
        }
    } else {
        let c = s[p];
        let l1 = 1 + newlines(s, 0, p + 1);
        assert(newlines(s, 0, p + 1) == newlines(s, 0, p) + if s[p] == '\n' {
            1int
        } else {
            0int
        });
        if c == ' ' || c == '\r' || c == '\t' {
            lemma_lex_from_shape(s, p + 1, line, acc);
        } else if c == '\n' {
            lemma_lex_from_shape(s, p + 1, line + 1, acc);
        } else if single_kind(c) is Some {
            let t = super::scan::tok(single_kind(c)->0, p, p + 1, line);
            lemma_push(s, p, p + 1, acc, t);
            lemma_lex_from_shape(s, p + 1, line, acc.push(t));
        } else if c == '/' {
            if p + 1 < s.len() && s[p + 1] == '/' {
                let q = comment_run(s, p + 2);
                lemma_comment_run(s, p + 2);
                lemma_no_newline_step(s, p, q);
                let t = super::scan::tok(TokenKind::COMMENT, p, q, line);
                lemma_push(s, p, q, acc, t);
                lemma_lex_from_shape(s, q, line, acc.push(t));
            } else {
                let t = super::scan::tok(TokenKind::SLASH, p, p + 1, line);
                lemma_push(s, p, p + 1, acc, t);
                lemma_lex_from_shape(s, p + 1, line, acc.push(t));
            }
        } else if equal_pair(c) is Some {
            let (long, short) = equal_pair(c)->0;
            if p + 1 < s.len() && s[p + 1] == '=' {
                lemma_no_newline_step(s, p, p + 2);
                let t = super::scan::tok(long, p, p + 2, line);
                lemma_push(s, p, p + 2, acc, t);
                lemma_lex_from_shape(s, p + 2, line, acc.push(t));
            } else {
                let t = super::scan::tok(short, p, p + 1, line);
                lemma_push(s, p, p + 1, acc, t);
                lemma_lex_from_shape(s, p + 1, line, acc.push(t));
            }
        } else if c == '"' {
            let q = quote_run(s, p + 1);
            lemma_quote_run(s, p + 1);
            if q < s.len() {
                let l2 = line + newlines(s, p + 1, q);
                lemma_newlines_split(s, 0, p + 1, q);
                lemma_newlines_split(s, 0, q, q + 1);
                assert(newlines(s, q, q + 1) == 0);
                lemma_newlines_bounds(s, 0, q + 1);
                let t = super::scan::tok(TokenKind::STRING, p, q + 1, l2);
                lemma_push(s, p, q + 1, acc, t);
                lemma_lex_from_shape(s, q + 1, l2, acc.push(t));
            }
        } else if is_digit_char(c) {
            lemma_number_end(s, p);
            lemma_digit_run(s, p + 1);
            let q = digit_run(s, p + 1);
            if q < s.len() && s[q] == '.' {
                lemma_digit_run(s, q + 1);
            }
            match number_end(s, p) {
                None => {},
                Some(r) => {
                    assert forall|i: int| p <= i < r implies #[trigger] s[i] != '\n' by {
                        if i < q {
                            if i > p {
                                assert(is_digit_char(s[i]));
                            }
                        } else if i > q {
                            assert(is_digit_char(s[i]));
                        }
                    }
                    lemma_no_newline_step(s, p, r);
                    let t = super::scan::tok(TokenKind::NUMBER, p, r, line);
                    lemma_push(s, p, r, acc, t);
                    lemma_lex_from_shape(s, r, line, acc.push(t));
                },
            }
        } else if super::scan::is_alpha_char(c) {
            let q = ident_run(s, p + 1);
            lemma_ident_run(s, p + 1);
            assert forall|i: int| p <= i < q implies #[trigger] s[i] != '\n' by {
                if i > p {
                    assert(is_ident_char(s[i]));
                }
            }
            lemma_no_newline_step(s, p, q);
            if super::scan::word_sliceable(s, p, q) {
                let k = word_kind(super::scan::byte_word(s, p, q));
                let t = super::scan::tok(k, p, q, line);
                assert(k != TokenKind::EOF);
                lemma_push(s, p, q, acc, t);
                lemma_lex_from_shape(s, q, line, acc.push(t));
            }
        }
    }
}

/// Every token list that lexing produces is well formed (see `well_formed_tokens`):
/// it ends with one `EOF` token at the end of the source, its spans are in order and
/// within the source, and each token's line counts the newlines before its end.
pub proof fn lemma_lex_shape(s: Seq<char>)
    requires
        s.len() < usize::MAX,
    ensures
        lex_spec(s) matches Ok(toks) ==> well_formed_tokens(s, toks),
{
    assert(newlines(s, 0, 0) == 0);
    lemma_lex_from_shape(s, 0, 1, seq![]);
}

/// The token `t` can be cut out of the source `s` with `Span::lexeme`: its span falls
/// on character boundaries of the source's bytes, and the bytes there encode exactly
/// the token's characters.
pub open spec fn cuttable(s: Seq<char>, t: Token) -> bool {
    &&& t.span.start <= t.span.end <= vstd::utf8::encode_utf8(s).len()
    &&& vstd::utf8::is_char_boundary(vstd::utf8::encode_utf8(s), t.span.start as int)
    &&& vstd::utf8::is_char_boundary(vstd::utf8::encode_utf8(s), t.span.end as int)
    &&& forall|text: Seq<char>|
        vstd::utf8::encode_utf8(text) == #[trigger] vstd::utf8::encode_utf8(s).subrange(
            t.span.start as int,
            t.span.end as int,
        ) ==> text == text_of(s, t)
}

/// In an ASCII source, every token that lexing produces can be cut out of the source
/// with `Span::lexeme` (see `cuttable`).
pub proof fn lemma_ascii_token_lexemes(s: Seq<char>)
    requires
        s.len() < usize::MAX,
        vstd::utf8::is_ascii_chars(s),
    ensures
        lex_spec(s) matches Ok(toks) ==> forall|i: int|
            0 <= i < toks.len() ==> cuttable(s, #[trigger] toks[i]),
{
    lemma_lex_shape(s);
    if let Ok(toks) = lex_spec(s) {
        assert forall|i: int| 0 <= i < toks.len() implies cuttable(s, #[trigger] toks[i]) by {
            let t = toks[i];
            crate::span::lemma_ascii_offsets(s, t.span.start as int, t.span.end as int);
        }
    }
}

/// The kind of token an operator or punctuation text stands for, where it is one.
pub open spec fn symbol_kind(w: Seq<char>) -> Option<TokenKind> {
    if w == seq!['('] {
        Some(TokenKind::LPAREN)
    } else if w == seq![')'] {
        Some(TokenKind::RPAREN)
    } else if w == seq!['{'] {
        Some(TokenKind::LBRACE)
    } else if w == seq!['}'] {
        Some(TokenKind::RBRACE)
    } else if w == seq![','] {
        Some(TokenKind::COMMA)
    } else if w == seq!['.'] {
        Some(TokenKind::DOT)
    } else if w == seq![';'] {
        Some(TokenKind::SEMICOLON)
    } else if w == seq!['+'] {
        Some(TokenKind::PLUS)
    } else if w == seq!['-'] {
        Some(TokenKind::MINUS)
    } else if w == seq!['*'] {
        Some(TokenKind::STAR)
    } else if w == seq!['/'] {
        Some(TokenKind::SLASH)
    } else if w == seq!['='] {
        Some(TokenKind::EQUAL)
    } else if w == seq!['=', '='] {
        Some(TokenKind::EEQUAL)
    } else if w == seq!['!'] {
        Some(TokenKind::BANG)
    } else if w == seq!['!', '='] {
        Some(TokenKind::BEQUAL)
    } else if w == seq!['>'] {
        Some(TokenKind::RANGLE)
    } else if w == seq!['>', '='] {
        Some(TokenKind::RANGLEEQUAL)
    } else if w == seq!['<'] {
        Some(TokenKind::LANGLE)
    } else if w == seq!['<', '='] {
        Some(TokenKind::LANGLEEQUAL)
    } else {
        None
    }
}

/// The kind of token a keyword's spelling stands for, where `w` spells one.
pub open spec fn spelled_keyword(w: Seq<char>) -> Option<TokenKind> {
    if w == seq!['t', 'r', 'u', 'e'] {
        Some(TokenKind::TRUE)
    } else if w == seq!['f', 'a', 'l', 's', 'e'] {
        Some(TokenKind::FALSE)
    } else if w == seq!['n', 'i', 'l'] {
        Some(TokenKind::NIL)
    } else if w == seq!['v', 'a', 'r'] {
        Some(TokenKind::VAR)
    } else if w == seq!['o', 'r'] {
        Some(TokenKind::OR)
    } else if w == seq!['a', 'n', 'd'] {
        Some(TokenKind::AND)
    } else if w == seq!['i', 'f'] {
        Some(TokenKind::IF)
    } else if w == seq!['e', 'l', 's', 'e'] {
        Some(TokenKind::ELSE)
    } else if w == seq!['f', 'o', 'r'] {
        Some(TokenKind::FOR)
    } else if w == seq!['w', 'h', 'i', 'l', 'e'] {
        Some(TokenKind::WHILE)
    } else if w == seq!['f', 'u', 'n'] {
        Some(TokenKind::FUN)
    } else if w == seq!['r', 'e', 't', 'u', 'r', 'n'] {
        Some(TokenKind::RETURN)
    } else if w == seq!['c', 'l', 'a', 's', 's'] {
        Some(TokenKind::CLASS)
    } else if w == seq!['s', 'u', 'p', 'e', 'r'] {
        Some(TokenKind::SUPER)
    } else if w == seq!['t', 'h', 'i', 's'] {
        Some(TokenKind::THIS)
    } else if w == seq!['p', 'r', 'i', 'n', 't'] {
        Some(TokenKind::PRINT)
    } else {
        None
    }
}

proof fn lemma_keyword_spelled(w: Seq<char>)
    ensures
        keyword(w) == spelled_keyword(w),
{
    reveal_strlit("true");
    reveal_strlit("false");
    reveal_strlit("nil");
    reveal_strlit("var");
    reveal_strlit("or");
    reveal_strlit("and");
    reveal_strlit("if");
    reveal_strlit("else");
    reveal_strlit("for");
    reveal_strlit("while");
    reveal_strlit("fun");
    reveal_strlit("return");
    reveal_strlit("class");
    reveal_strlit("super");
    reveal_strlit("this");
    reveal_strlit("print");
    assert(seq!['t', 'r', 'u', 'e'] =~= "true"@);
    assert(seq!['f', 'a', 'l', 's', 'e'] =~= "false"@);
    assert(seq!['n', 'i', 'l'] =~= "nil"@);
    assert(seq!['v', 'a', 'r'] =~= "var"@);
    assert(seq!['o', 'r'] =~= "or"@);
    assert(seq!['a', 'n', 'd'] =~= "and"@);
    assert(seq!['i', 'f'] =~= "if"@);
    assert(seq!['e', 'l', 's', 'e'] =~= "else"@);
    assert(seq!['f', 'o', 'r'] =~= "for"@);
    assert(seq!['w', 'h', 'i', 'l', 'e'] =~= "while"@);
    assert(seq!['f', 'u', 'n'] =~= "fun"@);
    assert(seq!['r', 'e', 't', 'u', 'r', 'n'] =~= "return"@);
    assert(seq!['c', 'l', 'a', 's', 's'] =~= "class"@);
    assert(seq!['s', 'u', 'p', 'e', 'r'] =~= "super"@);
    assert(seq!['t', 'h', 'i', 's'] =~= "this"@);
    assert(seq!['p', 'r', 'i', 'n', 't'] =~= "print"@);
}

/// What each token that lexing produces is, read off its text: an operator or
/// punctuation token is the kind its text spells (`(` is `LPAREN`, `>=` is
/// `RANGLEEQUAL`, ...), a token starting with a digit is a number, with `"` a string,
/// with `//` a comment. In an ASCII source, a word spelling a keyword is that keyword
/// and any other word is an identifier.
pub proof fn law_token_kinds(s: Seq<char>)
    requires
        s.len() < usize::MAX,
    ensures
        lex_spec(s) matches Ok(toks) ==> forall|i: int|
            0 <= i < toks.len() ==> {
                let w = #[trigger] text_of(s, toks[i]);
                &&& symbol_kind(w) is Some ==> toks[i].kind == symbol_kind(w)->0
                &&& (w.len() > 0 && is_digit_char(w[0])) ==> toks[i].kind == TokenKind::NUMBER
                &&& (w.len() > 0 && w[0] == '"') ==> toks[i].kind == TokenKind::STRING
                &&& (w.len() >= 2 && w[0] == '/' && w[1] == '/') ==> toks[i].kind
                    == TokenKind::COMMENT
                &&& (vstd::utf8::is_ascii_chars(s) && w.len() > 0 && is_alpha_char(w[0]))
                    ==> toks[i].kind == match spelled_keyword(w) {
                    Some(k) => k,
                    None => TokenKind::IDENTIFIER,
                }
            },
{
    lemma_lex_shape(s);
    if let Ok(toks) = lex_spec(s) {
        assert forall|i: int| 0 <= i < toks.len() implies {
            let w = #[trigger] text_of(s, toks[i]);
            &&& symbol_kind(w) is Some ==> toks[i].kind == symbol_kind(w)->0
            &&& (w.len() > 0 && is_digit_char(w[0])) ==> toks[i].kind == TokenKind::NUMBER
            &&& (w.len() > 0 && w[0] == '"') ==> toks[i].kind == TokenKind::STRING
            &&& (w.len() >= 2 && w[0] == '/' && w[1] == '/') ==> toks[i].kind
                == TokenKind::COMMENT
            &&& (vstd::utf8::is_ascii_chars(s) && w.len() > 0 && is_alpha_char(w[0]))
                ==> toks[i].kind == match spelled_keyword(w) {
                Some(k) => k,
                None => TokenKind::IDENTIFIER,
            }
        } by {
            let t = toks[i];
            let a = t.span.start as int;
            let b = t.span.end as int;
            let w = text_of(s, t);
            assert(kind_of_text(s, a, b) == t.kind);
            assert(s.subrange(a, b) == w);
            lemma_keyword_spelled(w);
            if vstd::utf8::is_ascii_chars(s) {
                crate::span::lemma_ascii_offsets(s, a, b);
                vstd::utf8::encode_utf8_decode_utf8(w);
                assert(super::scan::byte_word(s, a, b) == w);
            }
        }
    }
}

} // verus!
