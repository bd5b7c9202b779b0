//! Tabs and spaces are interchangeable separators: turning every tab of a source into
//! a space changes nothing in what lexing gives.
use super::scan::{
    byte_word, comment_run, digit_pred, digit_run, equal_pair, ident_pred, ident_run, is_alpha_char,
    is_digit_char, keyword, lemma_comment_run, lemma_digit_run, lemma_ident_run, lemma_number_end,
    lemma_quote_run, lex_from, lex_spec, newlines, not_newline_pred, not_quote_pred, number_end,
    quote_run, run_end, single_kind, tok, word_kind, word_sliceable,
};
use super::token::{Token, TokenKind};
use vstd::prelude::*;
use vstd::utf8::{decode_utf8, encode_scalar, encode_utf8, is_char_boundary, valid_utf8};

verus! {

/// A tab read as a space; every other character unchanged.
pub open spec fn untab(c: char) -> char {
    if c == '\t' {
        ' '
    } else {
        c
    }
}

/// The source with every tab turned into a space.
pub open spec fn tabs_as_spaces(s: Seq<char>) -> Seq<char> {
    s.map_values(|c: char| untab(c))
}

spec fn untab_byte(b: u8) -> u8 {
    if b == 9 {
        32
    } else {
        b
    }
}

spec fn untab_bytes(b: Seq<u8>) -> Seq<u8> {
    b.map_values(|x: u8| untab_byte(x))
}

/// The encoding of a character read with tabs as spaces is its encoding with the tab
/// byte read as a space byte.
proof fn lemma_encode_scalar_untab(c: char)
    ensures
        encode_scalar(untab(c) as u32) == untab_bytes(encode_scalar(c as u32)),
{
    vstd::utf8::char_is_scalar(c);
    let v = c as u32;
    if c == '\t' {
        assert(v == 9);
        assert(((9u32 & 0x7F) as u8) == 9u8) by (bit_vector);
        assert(((32u32 & 0x7F) as u8) == 32u8) by (bit_vector);
        assert(encode_scalar(untab(c) as u32) =~= untab_bytes(encode_scalar(v)));
    } else {
        assert(v != 9);
        let e = encode_scalar(v);
        if v <= 0x7F {
            assert(v <= 0x7F && v != 9 ==> ((v & 0x7F) as u8) != 9u8) by (bit_vector);
        } else {
            assert(((0xC0u8 | ((v >> 6) & 0x1F) as u8)) != 9u8) by (bit_vector);
            assert(((0xE0u8 | ((v >> 12) & 0x0F) as u8)) != 9u8) by (bit_vector);
            assert(((0xF0u8 | ((v >> 18) & 0x7) as u8)) != 9u8) by (bit_vector);
            assert(((0x80u8 | (v & 0x3F) as u8)) != 9u8) by (bit_vector);
            assert(((0x80u8 | ((v >> 6) & 0x3F) as u8)) != 9u8) by (bit_vector);
            assert(((0x80u8 | ((v >> 12) & 0x3F) as u8)) != 9u8) by (bit_vector);
        }
        assert(forall|i: int| 0 <= i < e.len() ==> e[i] != 9u8);
        assert(encode_scalar(untab(c) as u32) =~= untab_bytes(e));
    }
}

/// Encoding a source with tabs as spaces reads each tab byte as a space byte.
proof fn lemma_encode_untab(s: Seq<char>)
    ensures
        encode_utf8(tabs_as_spaces(s)) == untab_bytes(encode_utf8(s)),
    decreases s.len(),
{
    if s.len() > 0 {
        let t = tabs_as_spaces(s);
        assert(t[0] == untab(s[0]));
        assert(t.drop_first() =~= tabs_as_spaces(s.drop_first()));
        lemma_encode_untab(s.drop_first());
        lemma_encode_scalar_untab(s[0]);
        let a = encode_scalar(s[0] as u32);
        let b = encode_utf8(s.drop_first());
        assert(untab_bytes(a + b) =~= untab_bytes(a) + untab_bytes(b));
    } else {
        assert(encode_utf8(tabs_as_spaces(s)) =~= untab_bytes(encode_utf8(s)));
    }
}

/// Reading tabs as spaces moves no character boundary.
proof fn lemma_boundary_untab(s: Seq<char>, i: int)
    ensures
        is_char_boundary(encode_utf8(tabs_as_spaces(s)), i) == is_char_boundary(encode_utf8(s), i),
        encode_utf8(tabs_as_spaces(s)).len() == encode_utf8(s).len(),
{
    let b = encode_utf8(s);
    let b2 = encode_utf8(tabs_as_spaces(s));
    lemma_encode_untab(s);
    vstd::utf8::encode_utf8_valid_utf8(s);
    vstd::utf8::encode_utf8_valid_utf8(tabs_as_spaces(s));
    assert(b2.len() == b.len());
    if 0 <= i < b.len() {
        vstd::utf8::is_char_boundary_iff_not_is_continuation_byte(b, i);
        vstd::utf8::is_char_boundary_iff_not_is_continuation_byte(b2, i);
        assert(b2[i] == untab_byte(b[i]));
    } else if i == b.len() {
        vstd::utf8::is_char_boundary_start_end_of_seq(b);
        vstd::utf8::is_char_boundary_start_end_of_seq(b2);
    }
}

/// The keywords are made of letters.
proof fn lemma_keyword_letters(w: Seq<char>)
    ensures
        keyword(w) is Some ==> forall|i: int| 0 <= i < w.len() ==> is_alpha_char(#[trigger] w[i]),
{
    reveal_strlit("true");
    reveal_strlit("false");
    reveal_strlit("nil");
    reveal_strlit("var");
    reveal_strlit("or");
    reveal_strlit("and");
    reveal_strlit("if");
    reveal_strlit("else");
    reveal_strlit("for");
    reveal_strlit("while");
    reveal_strlit("fun");
    reveal_strlit("return");
    reveal_strlit("class");
    reveal_strlit("super");
    reveal_strlit("this");
    reveal_strlit("print");
}

/// A word read with tabs as spaces has the kind it had.
proof fn lemma_word_kind_untab(w: Seq<char>)
    ensures
        word_kind(tabs_as_spaces(w)) == word_kind(w),
{
    let w2 = tabs_as_spaces(w);
    if exists|i: int| 0 <= i < w.len() && w[i] == '\t' {
        let i = choose|i: int| 0 <= i < w.len() && w[i] == '\t';
        lemma_keyword_letters(w);
        lemma_keyword_letters(w2);
        assert(!is_alpha_char(w[i]));
        assert(w2[i] == ' ');
        assert(!is_alpha_char(w2[i]));
    } else {
        assert(w2 =~= w);
    }
}

/// The keyword lookup reads, with tabs as spaces, the same bytes and hence a word of the
/// same kind.
proof fn lemma_byte_word_untab(s: Seq<char>, a: int, b: int)
    ensures
        word_sliceable(tabs_as_spaces(s), a, b) == word_sliceable(s, a, b),
        word_sliceable(s, a, b) ==> word_kind(byte_word(tabs_as_spaces(s), a, b)) == word_kind(
            byte_word(s, a, b),
        ),
{
    lemma_boundary_untab(s, a);
    lemma_boundary_untab(s, b);
    if word_sliceable(s, a, b) {
        let bs = encode_utf8(s);
        lemma_encode_untab(s);
        vstd::utf8::encode_utf8_valid_utf8(s);
        crate::span::lemma_boundary_in_tail(bs, a, b);
        let tail = bs.subrange(a, bs.len() as int);
        vstd::utf8::valid_utf8_split(tail, b - a);
        let sub = bs.subrange(a, b);
        assert(tail.subrange(0, b - a) =~= sub);
        assert(valid_utf8(sub));
        let w = decode_utf8(sub);
        vstd::utf8::decode_utf8_encode_utf8(sub);
        lemma_encode_untab(w);
        assert(encode_utf8(tabs_as_spaces(s)).subrange(a, b) =~= untab_bytes(sub));
        vstd::utf8::encode_utf8_decode_utf8(tabs_as_spaces(w));
        assert(byte_word(tabs_as_spaces(s), a, b) == tabs_as_spaces(w));
        lemma_word_kind_untab(w);
    }
}

/// A run of characters that `keep` takes ends at the same place when `keep` takes tabs
/// and spaces alike.
proof fn lemma_run_end_untab(s: Seq<char>, p: int, keep: spec_fn(char) -> bool)
    requires
        keep('\t') == keep(' '),
    ensures
        run_end(tabs_as_spaces(s), p, keep) == run_end(s, p, keep),
    decreases s.len() - p,
{
    if 0 <= p < s.len() {
        assert(tabs_as_spaces(s)[p] == untab(s[p]));
        lemma_run_end_untab(s, p + 1, keep);
    }
}

proof fn lemma_newlines_untab(s: Seq<char>, a: int, b: int)
    requires
        0 <= a,
        b <= s.len(),
    ensures
        newlines(tabs_as_spaces(s), a, b) == newlines(s, a, b),
    decreases b - a,
{
    if a < b {
        lemma_newlines_untab(s, a, b - 1);
        assert(tabs_as_spaces(s)[b - 1] == untab(s[b - 1]));
    }
}

proof fn lemma_number_end_untab(s: Seq<char>, p: int)
    requires
        0 <= p < s.len(),
    ensures
        number_end(tabs_as_spaces(s), p) == number_end(s, p),
{
    let t = tabs_as_spaces(s);
    lemma_run_end_untab(s, p + 1, digit_pred());
    lemma_digit_run(s, p + 1);
    let q = digit_run(s, p + 1);
    if q < s.len() {
        assert(t[q] == untab(s[q]));
        if q + 1 < s.len() {
            assert(t[q + 1] == untab(s[q + 1]));
        }
        lemma_run_end_untab(s, q + 1, digit_pred());
    }
}

proof fn lemma_lex_from_untab(s: Seq<char>, p: int, line: int, acc: Seq<Token>)
    ensures
        lex_from(tabs_as_spaces(s), p, line, acc) == lex_from(s, p, line, acc),
    decreases s.len() - p,
{
    let t = tabs_as_spaces(s);
    if 0 <= p < s.len() {
        let c = s[p];
        assert(t[p] == untab(c));
        if p + 1 < s.len() {
            assert(t[p + 1] == untab(s[p + 1]));
        }
        if c == ' ' || c == '\r' || c == '\t' {
            lemma_lex_from_untab(s, p + 1, line, acc);
        } else if c == '\n' {
            lemma_lex_from_untab(s, p + 1, line + 1, acc);
        } else if single_kind(c) is Some {
            lemma_lex_from_untab(s, p + 1, line, acc.push(tok(single_kind(c)->0, p, p + 1, line)));
        } else if c == '/' {
            if p + 1 < s.len() && s[p + 1] == '/' {
                lemma_comment_run(s, p + 2);
                lemma_run_end_untab(s, p + 2, not_newline_pred());
                let q = comment_run(s, p + 2);
                lemma_lex_from_untab(s, q, line, acc.push(tok(TokenKind::COMMENT, p, q, line)));
            } else {
                lemma_lex_from_untab(s, p + 1, line, acc.push(tok(TokenKind::SLASH, p, p + 1, line)));
            }
        } else if equal_pair(c) is Some {
            let (long, short) = equal_pair(c)->0;
            if p + 1 < s.len() && s[p + 1] == '=' {
                lemma_lex_from_untab(s, p + 2, line, acc.push(tok(long, p, p + 2, line)));
            } else {
                lemma_lex_from_untab(s, p + 1, line, acc.push(tok(short, p, p + 1, line)));
            }
        } else if c == '"' {
            lemma_quote_run(s, p + 1);
            lemma_run_end_untab(s, p + 1, not_quote_pred());
            let q = quote_run(s, p + 1);
            if q < s.len() {
                lemma_newlines_untab(s, p + 1, q);
                let l2 = line + newlines(s, p + 1, q);
                lemma_lex_from_untab(s, q + 1, l2, acc.push(tok(TokenKind::STRING, p, q + 1, l2)));
            }
        } else if is_digit_char(c) {
            lemma_number_end(s, p);
            lemma_number_end_untab(s, p);
            if let Some(q) = number_end(s, p) {
                lemma_lex_from_untab(s, q, line, acc.push(tok(TokenKind::NUMBER, p, q, line)));
            }
        } else if is_alpha_char(c) {
            lemma_ident_run(s, p + 1);
            lemma_run_end_untab(s, p + 1, ident_pred());
            let q = ident_run(s, p + 1);
            lemma_byte_word_untab(s, p, q);
            if word_sliceable(s, p, q) {
                lemma_lex_from_untab(
                    s,
                    q,
                    line,
                    acc.push(tok(word_kind(byte_word(s, p, q)), p, q, line)),
                );
            }
        }
    }
}

/// Tabs and spaces are interchangeable separators: lexing a source with every tab
/// turned into a space gives exactly what lexing the source gives, the same tokens
/// (kinds, positions, lines) or the same error. In particular lexing never fails at a
/// tab.
pub proof fn law_tabs_are_spaces(s: Seq<char>)
    ensures
        lex_spec(tabs_as_spaces(s)) == lex_spec(s),
{
    lemma_lex_from_untab(s, 0, 1, seq![]);
}

} // verus!
