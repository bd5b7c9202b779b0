pub mod laws;
pub mod scan;
pub mod separators;
pub mod token;

pub use token::{Token, TokenKind};

use crate::error::Error;
use crate::span::Span;
use crate::text::{str_eq, usize_to_string};
use scan::{
    comment_run, digit_run, failure_message, ident_run, is_alpha_char, is_digit_char, keyword, lex_from,
    lex_spec, lemma_comment_run, lemma_digit_run, lemma_ident_run, lemma_quote_run, newlines, number_end, quote_run, tok, word_kind, is_ident_char, word_sliceable, byte_word, LexFailure,
};
use vstd::prelude::*;
use vstd::string::StrSliceExecFns;
use vstd::string::StringExecFns;
use vstd::string::StringSliceAdditionalSpecFns;

verus! {

pub type Tokens = Vec<Token>;

/// Turns source text into tokens. Positions count characters, not bytes.
pub struct Lexer<'s> {
    current: usize,
    line: usize,
    source: &'s str,
    count: usize,
}

/// The kind of keyword `word` spells, if any.
fn keyword_kind(word: &str) -> (r: Option<TokenKind>)
    ensures
        r == keyword(word@),
{
    if str_eq(word, "true") {
        Some(TokenKind::TRUE)
    } else if str_eq(word, "false") {
        Some(TokenKind::FALSE)
    } else if str_eq(word, "nil") {
        Some(TokenKind::NIL)
    } else if str_eq(word, "var") {
        Some(TokenKind::VAR)
    } else if str_eq(word, "or") {
        Some(TokenKind::OR)
    } else if str_eq(word, "and") {
        Some(TokenKind::AND)
    } else if str_eq(word, "if") {
        Some(TokenKind::IF)
    } else if str_eq(word, "else") {
        Some(TokenKind::ELSE)
    } else if str_eq(word, "for") {
        Some(TokenKind::FOR)
    } else if str_eq(word, "while") {
        Some(TokenKind::WHILE)
    } else if str_eq(word, "fun") {
        Some(TokenKind::FUN)
    } else if str_eq(word, "return") {
        Some(TokenKind::RETURN)
    } else if str_eq(word, "class") {
        Some(TokenKind::CLASS)
    } else if str_eq(word, "super") {
        Some(TokenKind::SUPER)
    } else if str_eq(word, "this") {
        Some(TokenKind::THIS)
    } else if str_eq(word, "print") {
        Some(TokenKind::PRINT)
    } else {
        None
    }
}

/// What `either` returns and where it leaves the position, from position `p`.
pub open spec fn either_spec(s: Seq<char>, p: int, long: TokenKind, short: TokenKind) -> (
    TokenKind,
    int,
) {
    if short == TokenKind::EQUAL || short == TokenKind::BANG || short == TokenKind::RANGLE
        || short == TokenKind::LANGLE {
        if 0 <= p < s.len() && s[p] == '=' {
            (long, p + 1)
        } else {
            (short, p)
        }
    } else if short == TokenKind::SLASH {
        if 0 <= p < s.len() && s[p] == '/' {
            (long, comment_run(s, p + 1))
        } else {
            (short, p)
        }
    } else {
        (short, p)
    }
}

impl<'s> Lexer<'s> {
    #[verifier::type_invariant]
    spec fn inv(self) -> bool {
        &&& self.count == self.source@.len()
        &&& self.count < usize::MAX
        &&& self.current <= self.count
        &&& 1 <= self.line <= self.current + 1
    }

    /// The characters of the source.
    pub closed spec fn text(&self) -> Seq<char> {
        self.source@
    }

    /// The position of the next character to read.
    pub closed spec fn pos(&self) -> int {
        self.current as int
    }

    /// The current line number.
    pub closed spec fn line_no(&self) -> int {
        self.line as int
    }

    /// A lexer at the start of `source`, on line 1.
    /// (No `str` reaches `usize::MAX` characters: allocations stop at `isize::MAX` bytes.)
    pub fn new(source: &'s str) -> (l: Self)
        requires
            source@.len() < usize::MAX,
        ensures
            l.text() == source@,
            l.pos() == 0,
            l.line_no() == 1,
    {
        let count = source.unicode_len();
        Self { current: 0, line: 1, source, count }
    }

    /// The character `num` places after the current position, as a string slice.
    pub fn peek(&self, num: usize) -> (r: Option<&'s str>)
        ensures
            self.pos() + num < self.text().len() ==> (r matches Some(t) && t@ == seq![
                self.text()[self.pos() + num],
            ]),
            self.pos() + num >= self.text().len() ==> r is None,
    {
        proof {
            use_type_invariant(self);
        }
        if num >= self.count - self.current {
            None
        } else {
            let i = self.current + num;
            Some(self.source.substring_char(i, i + 1))
        }
    }

    /// The character at the current position, consumed.
    pub fn advance(&mut self) -> (r: Option<&'s str>)
        ensures
            final(self).text() == old(self).text(),
            final(self).line_no() == old(self).line_no(),
            old(self).pos() < old(self).text().len() ==> (r matches Some(t) && t@ == seq![
                old(self).text()[old(self).pos()],
            ] && final(self).pos() == old(self).pos() + 1),
            old(self).pos() >= old(self).text().len() ==> r is None && final(self).pos()
                == old(self).pos(),
    {
        proof {
            use_type_invariant(&*self);
        }
        let res = self.peek(0);
        if res.is_some() {
            self.current = self.current + 1;
        }
        res
    }

    /// Whether every character of `s` is an ASCII digit.
    pub fn is_digit(&self, s: &str) -> (r: bool)
        ensures
            r == (forall|i: int| 0 <= i < s@.len() ==> is_digit_char(#[trigger] s@[i])),
    {
        let n = s.unicode_len();
        let mut i: usize = 0;
        while i < n
            invariant
                n == s@.len(),
                i <= n,
                forall|k: int| 0 <= k < i ==> is_digit_char(#[trigger] s@[k]),
            decreases n - i,
        {
            let c = s.get_char(i);
            if !('0' <= c && c <= '9') {
                return false;
            }
            i = i + 1;
        }
        true
    }

    /// Whether every character of `s` is an ASCII letter or `_`.
    pub fn is_alpha(&self, s: &str) -> (r: bool)
        ensures
            r == (forall|i: int| 0 <= i < s@.len() ==> is_alpha_char(#[trigger] s@[i])),
    {
        let n = s.unicode_len();
        let mut i: usize = 0;
        while i < n
            invariant
                n == s@.len(),
                i <= n,
                forall|k: int| 0 <= k < i ==> is_alpha_char(#[trigger] s@[k]),
            decreases n - i,
        {
            let c = s.get_char(i);
            if !(('a' <= c && c <= 'z') || ('A' <= c && c <= 'Z') || c == '_') {
                return false;
            }
            i = i + 1;
        }
        true
    }

    /// Lexes the whole source from its start: the tokens, ending with `EOF`, or the
    /// first lexical error. The source must be one where every word can be looked up
    /// as a keyword (see `scan::word_sliceable`); `try_lex` takes any source.
    pub fn lex(&mut self) -> (r: Result<Tokens, Error>)
        requires
            !(lex_spec(old(self).text()) is Err && lex_spec(old(self).text())->Err_0 is WordOffBoundary),
        ensures
            final(self).text() == old(self).text(),
            r is Ok ==> final(self).pos() == final(self).text().len(),
            match lex_spec(old(self).text()) {
                Ok(toks) => r matches Ok(v) && v@ == toks,
                Err(f) => r matches Err(Error::LexError(m)) && m@ == failure_message(f),
            },
    {
        match self.try_lex() {
            Some(r) => r,
            None => Ok(Vec::new()),
        }
    }

    /// Lexes the whole source from its start, as `lex` does; `None` when a word cannot
    /// be looked up as a keyword because its character positions, read as byte offsets,
    /// do not fall on character boundaries of the source (see `scan::word_sliceable`).
    pub fn try_lex(&mut self) -> (r: Option<Result<Tokens, Error>>)
        ensures
            final(self).text() == old(self).text(),
            r matches Some(Ok(_)) ==> final(self).pos() == final(self).text().len(),
            match lex_spec(old(self).text()) {
                Ok(toks) => r matches Some(Ok(v)) && v@ == toks,
                Err(LexFailure::WordOffBoundary { .. }) => r is None,
                Err(f) => r matches Some(Err(Error::LexError(m))) && m@ == failure_message(f),
            },
    {
        proof {
            use_type_invariant(&*self);
        }
        self.line = 1;
        self.current = 0;

        let ghost s = self.text();
        let mut tokens: Vec<Token> = Vec::new();

        loop
            invariant
                self.text() == s,
                s == old(self).text(),
                0 <= self.pos() <= s.len(),
                lex_spec(s) == lex_from(s, self.pos(), self.line_no(), tokens@),
            ensures
                self.text() == s,
                self.pos() == s.len(),
                lex_spec(s) == lex_from(s, self.pos(), self.line_no(), tokens@),
            decreases s.len() - self.pos(),
        {
            proof {
                use_type_invariant(&*self);
            }
            let ghost p = self.pos();
            let ghost line = self.line_no();
            let ghost acc = tokens@;
            let ss = match self.advance() {
                Some(ss) => ss,
                None => break,
            };
            let start = self.current - 1;
            let c = ss.get_char(0);
            assert(c == s[p]);
            match c {
                ' ' | '\r' | '\t' => {},
                '\n' => {
                    proof {
                        use_type_invariant(&*self);
                    }
                    self.line = self.line + 1;
                },
                '(' => tokens.push(Token::new(TokenKind::LPAREN, (start, self.current), self.line)),
                ')' => tokens.push(Token::new(TokenKind::RPAREN, (start, self.current), self.line)),
                '{' => tokens.push(Token::new(TokenKind::LBRACE, (start, self.current), self.line)),
                '}' => tokens.push(Token::new(TokenKind::RBRACE, (start, self.current), self.line)),
                ',' => tokens.push(Token::new(TokenKind::COMMA, (start, self.current), self.line)),
                '.' => tokens.push(Token::new(TokenKind::DOT, (start, self.current), self.line)),
                ';' => tokens.push(
                    Token::new(TokenKind::SEMICOLON, (start, self.current), self.line),
                ),
                '+' => tokens.push(Token::new(TokenKind::PLUS, (start, self.current), self.line)),
                '-' => tokens.push(Token::new(TokenKind::MINUS, (start, self.current), self.line)),
                '*' => tokens.push(Token::new(TokenKind::STAR, (start, self.current), self.line)),
                '/' => {
                    let kind = self.either(TokenKind::COMMENT, TokenKind::SLASH);
                    tokens.push(Token::new(kind, (start, self.current), self.line));
                },
                '=' => {
                    let kind = self.either(TokenKind::EEQUAL, TokenKind::EQUAL);
                    tokens.push(Token::new(kind, (start, self.current), self.line));
                },
                '!' => {
                    let kind = self.either(TokenKind::BEQUAL, TokenKind::BANG);
                    tokens.push(Token::new(kind, (start, self.current), self.line));
                },
                '>' => {
                    let kind = self.either(TokenKind::RANGLEEQUAL, TokenKind::RANGLE);
                    tokens.push(Token::new(kind, (start, self.current), self.line));
                },
                '<' => {
                    let kind = self.either(TokenKind::LANGLEEQUAL, TokenKind::LANGLE);
                    tokens.push(Token::new(kind, (start, self.current), self.line));
                },
                // literal
                _ => {
                    if c == '"' {
                        match self.match_string(&start) {
                            Some(tok) => tokens.push(tok),
                            None => {
                                return Some(Err(Error::LexError(String::from_str("unclosing quotes"))));
                            },
                        }
                    } else if self.is_digit(ss) {
                        match self.match_number(&start) {
                            Some(tok) => tokens.push(tok),
                            None => {
                                return Some(Err(
                                    Error::LexError(String::from_str("empty number fraction")),
                                ));
                            },
                        }
                    } else if self.is_alpha(ss) {
                        self.consume_word();
                        let end = self.current;
                        let at_start = self.source.is_char_boundary(start);
                        let at_end = self.source.is_char_boundary(end);
                        if !(at_start && at_end) {
                            proof {
                                assert(self.source.spec_bytes() == vstd::utf8::encode_utf8(s));
                                assert(start == p);
                                assert(end == ident_run(s, p + 1));
                                assert(!word_sliceable(s, p, ident_run(s, p + 1)));
                                assert(lex_from(s, p, line, acc) is Err);
                            }
                            return None;
                        }
                        proof {
                            vstd::utf8::encode_utf8_valid_utf8(self.source@);
                            crate::span::lemma_boundary_within(self.source.spec_bytes(), end as int);
                        }
                        let kind = self.word_kind_at(start);
                        tokens.push(Token::new(kind, (start, end), self.line));
                    } else {
                        let mut msg = usize_to_string(self.line);
                        msg.append(":");
                        let pos_text = usize_to_string(start);
                        msg.append(pos_text.as_str());
                        msg.append(": unknown character");
                        return Some(Err(Error::LexError(msg)));
                    }
                },
            }
        }

        // the position is now the number of characters in the source
        tokens.push(Token::new(TokenKind::EOF, (self.current, self.current), self.line));

        Some(Ok(tokens))
    }

    /// For an operator that may be followed by a second character: the long kind when
    /// that character follows (consuming it, and for `//` the rest of the line up to
    /// its newline), else the short kind.
    pub fn either(&mut self, long: TokenKind, short: TokenKind) -> (k: TokenKind)
        ensures
            old(self).pos() <= final(self).pos() <= final(self).text().len(),
            final(self).text() == old(self).text(),
            final(self).line_no() == old(self).line_no(),
            (k, final(self).pos()) == either_spec(old(self).text(), old(self).pos(), long, short),
    {
        proof {
            use_type_invariant(&*self);
        }
        let ghost s = self.text();
        match short {
            TokenKind::EQUAL | TokenKind::BANG | TokenKind::RANGLE | TokenKind::LANGLE => {
                if let Some(ss) = self.peek(0) {
                    if ss.get_char(0) == '=' {
                        self.advance();
                        return long;
                    }
                }
                short
            },
            TokenKind::SLASH => {
                if let Some(ss) = self.peek(0) {
                    if ss.get_char(0) == '/' {
                        // consume the second "/"
                        self.advance();
                        let ghost from = self.pos();
                        proof {
                            lemma_comment_run(s, from);
                        }
                        loop
                            invariant
                                self.text() == s,
                                self.line_no() == old(self).line_no(),
                                from <= self.pos() <= comment_run(s, from),
                                comment_run(s, from) <= s.len(),
                                forall|i: int| from <= i < comment_run(s, from) ==> #[trigger] s[i] != '\n',
                                comment_run(s, from) < s.len() ==> s[comment_run(s, from)] == '\n',
                            ensures
                                self.text() == s,
                                self.line_no() == old(self).line_no(),
                                self.pos() == comment_run(s, from),
                            decreases s.len() - self.pos(),
                        {
                            match self.peek(0) {
                                Some(comment) => {
                                    proof {
                                        assert(comment@[0] == s[self.pos()]);
                                    }
                                    if comment.get_char(0) == '\n' {
                                        break;
                                    }
                                    self.advance();
                                },
                                None => break,
                            }
                        }
                        return long;
                    }
                }
                short
            },
            _ => short,
        }
    }

    /// Reads the rest of a string literal whose opening quote was at `start`.
    /// `None` when the source ends before the closing quote.
    pub fn match_string(&mut self, start: &usize) -> (r: Option<Token>)
        ensures
            old(self).pos() <= final(self).pos() <= final(self).text().len(),
            final(self).text() == old(self).text(),
            ({
                let s = old(self).text();
                let q = quote_run(s, old(self).pos());
                let l2 = old(self).line_no() + newlines(s, old(self).pos(), q);
                &&& final(self).line_no() == l2
                &&& q >= s.len() ==> r is None && final(self).pos() == s.len()
                &&& q < s.len() ==> r == Some(tok(TokenKind::STRING, *start as int, q + 1, l2))
                    && final(self).pos() == q + 1
            }),
    {
        proof {
            use_type_invariant(&*self);
        }
        let ghost s = self.text();
        let ghost from = self.pos();
        let ghost line0 = self.line_no();
        proof {
            lemma_quote_run(s, from);
        }
        let ghost q = quote_run(s, from);
        loop
            invariant
                self.text() == s,
                from <= self.pos() <= q,
                q <= s.len(),
                forall|i: int| from <= i < q ==> #[trigger] s[i] != '"',
                q < s.len() ==> s[q] == '"',
                self.line_no() == line0 + newlines(s, from, self.pos()),
            ensures
                self.text() == s,
                self.pos() == q,
                self.line_no() == line0 + newlines(s, from, q),
            decreases s.len() - self.pos(),
        {
            proof {
                use_type_invariant(&*self);
            }
            match self.peek(0) {
                Some(ss) => {
                    let c = ss.get_char(0);
                    let ghost p = self.pos();
                    assert(c == s[p]);
                    if c == '"' {
                        break;
                    }
                    self.advance();
                    assert(newlines(s, from, p + 1) == newlines(s, from, p) + if s[p] == '\n' {
                        1int
                    } else {
                        0int
                    });
                    if c == '\n' {
                        proof {
                            use_type_invariant(&*self);
                        }
                        self.line = self.line + 1;
                    }
                },
                None => break,
            }
        }
        match self.peek(0) {
            Some(_) => {
                self.advance();
                Some(Token::new(TokenKind::STRING, (*start, self.current), self.line))
            },
            None => None,
        }
    }

    /// Consumes ASCII digits up to the first character that is not one.
    fn consume_digits(&mut self)
        ensures
            old(self).pos() <= final(self).pos() <= final(self).text().len(),
            final(self).text() == old(self).text(),
            final(self).line_no() == old(self).line_no(),
            final(self).pos() == digit_run(old(self).text(), old(self).pos()),
    {
        proof {
            use_type_invariant(&*self);
        }
        let ghost s = self.text();
        let ghost from = self.pos();
        proof {
            lemma_digit_run(s, from);
        }
        loop
            invariant
                self.text() == s,
                self.line_no() == old(self).line_no(),
                from <= self.pos() <= digit_run(s, from),
                digit_run(s, from) <= s.len(),
                forall|i: int| from <= i < digit_run(s, from) ==> is_digit_char(#[trigger] s[i]),
                digit_run(s, from) < s.len() ==> !is_digit_char(s[digit_run(s, from)]),
            ensures
                self.text() == s,
                self.line_no() == old(self).line_no(),
                self.pos() == digit_run(s, from),
            decreases s.len() - self.pos(),
        {
            match self.peek(0) {
                Some(ss) => {
                    proof {
                        assert(ss@[0] == s[self.pos()]);
                    }
                    if !self.is_digit(ss) {
                        break;
                    }
                    self.advance();
                },
                None => break,
            }
        }
    }

    /// Reads the rest of a number literal whose first digit was at `start`:
    /// digits, then optionally `.` and more digits. `None` when the `.` is followed
    /// by a character that is not a digit.
    pub fn match_number(&mut self, start: &usize) -> (r: Option<Token>)
        ensures
            old(self).pos() <= final(self).pos() <= final(self).text().len(),
            final(self).text() == old(self).text(),
            final(self).line_no() == old(self).line_no(),
            ({
                let s = old(self).text();
                let q = digit_run(s, old(self).pos());
                if q < s.len() && s[q] == '.' {
                    if q + 1 < s.len() && !is_digit_char(s[q + 1]) {
                        r is None && final(self).pos() == q
                    } else {
                        r == Some(
                            tok(TokenKind::NUMBER, *start as int, digit_run(s, q + 1), old(self).line_no()),
                        ) && final(self).pos() == digit_run(s, q + 1)
                    }
                } else {
                    r == Some(tok(TokenKind::NUMBER, *start as int, q, old(self).line_no()))
                        && final(self).pos() == q
                }
            }),
    {
        self.consume_digits();
        if let Some(ss) = self.peek(0) {
            if ss.get_char(0) == '.' {
                if let Some(next) = self.peek(1) {
                    proof {
                        assert(next@[0] == self.text()[self.pos() + 1]);
                    }
                    if !self.is_digit(next) {
                        proof {
                            use_type_invariant(&*self);
                        }
                        return None;
                    }
                }
                self.advance();  // consume the "."
                self.consume_digits();
            }
        }
        proof {
            use_type_invariant(&*self);
        }
        Some(Token::new(TokenKind::NUMBER, (*start, self.current), self.line))
    }

    /// Consumes the letters, digits and `_` that follow.
    fn consume_word(&mut self)
        ensures
            old(self).pos() <= final(self).pos() <= final(self).text().len(),
            final(self).text() == old(self).text(),
            final(self).line_no() == old(self).line_no(),
            final(self).pos() == ident_run(old(self).text(), old(self).pos()),
    {
        proof {
            use_type_invariant(&*self);
        }
        let ghost s = self.text();
        let ghost from = self.pos();
        proof {
            lemma_ident_run(s, from);
        }
        loop
            invariant
                self.text() == s,
                self.line_no() == old(self).line_no(),
                from <= self.pos() <= ident_run(s, from),
                ident_run(s, from) <= s.len(),
                forall|i: int| from <= i < ident_run(s, from) ==> is_ident_char(#[trigger] s[i]),
                ident_run(s, from) < s.len() ==> !is_ident_char(s[ident_run(s, from)]),
            ensures
                self.text() == s,
                self.line_no() == old(self).line_no(),
                self.pos() == ident_run(s, from),
            decreases s.len() - self.pos(),
        {
            proof {
                use_type_invariant(&*self);
            }
            match self.peek(0) {
                Some(ss) => {
                    proof {
                        assert(ss@[0] == s[self.pos()]);
                    }
                    if !(self.is_alpha(ss) || self.is_digit(ss)) {
                        break;
                    }
                    self.advance();
                },
                None => break,
            }
        }
    }

    /// The kind of the word from `start` to the current position: the keyword spelled
    /// by the source's bytes between those positions taken as byte offsets, or
    /// `IDENTIFIER`.
    fn word_kind_at(&self, start: usize) -> (k: TokenKind)
        requires
            word_sliceable(self.text(), start as int, self.pos()),
        ensures
            k == word_kind(byte_word(self.text(), start as int, self.pos())),
    {
        let ss = Span::new(start, self.current).lexeme(self.source);
        proof {
            vstd::utf8::encode_utf8_decode_utf8(ss@);
        }
        match keyword_kind(ss) {
            Some(kind) => kind,
            None => TokenKind::IDENTIFIER,
        }
    }

    /// Reads the rest of a word whose first letter was at `start`: a keyword or an
    /// identifier. The keyword is looked up in the source's bytes between `start` and
    /// the word's end taken as byte offsets, which must fall on character boundaries
    /// (see `scan::word_sliceable`).
    pub fn match_identifier(&mut self, start: &usize) -> (t: Token)
        requires
            *start <= old(self).pos(),
            word_sliceable(old(self).text(), *start as int, ident_run(old(self).text(), old(self).pos())),
        ensures
            old(self).pos() <= final(self).pos() <= final(self).text().len(),
            final(self).text() == old(self).text(),
            final(self).line_no() == old(self).line_no(),
            ({
                let s = old(self).text();
                let q = ident_run(s, old(self).pos());
                &&& final(self).pos() == q
                &&& t == tok(word_kind(byte_word(s, *start as int, q)), *start as int, q, old(self).line_no())
            }),
    {
        self.consume_word();
        let kind = self.word_kind_at(*start);
        Token::new(kind, (*start, self.current), self.line)
    }
}

} // verus!
