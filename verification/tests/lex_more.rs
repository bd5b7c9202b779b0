use zerox::lex::{Lexer, Token, TokenKind};
use zerox::{Error, Span};

fn kinds(src: &str) -> Vec<TokenKind> {
    let mut l = Lexer::new(src);
    l.lex().unwrap().into_iter().map(|t| t.kind).collect()
}

fn lex_error(src: &str) -> String {
    let mut l = Lexer::new(src);
    match l.lex() {
        Err(Error::LexError(m)) => m,
        other => panic!("expected a lex error, got {:?}", other.map(|_| ())),
    }
}

#[test]
fn lexes_operators_and_their_equal_forms() {
    assert_eq!(
        kinds("( ) { } , . ; + - * / = == ! != > >= < <="),
        vec![
            TokenKind::LPAREN,
            TokenKind::RPAREN,
            TokenKind::LBRACE,
            TokenKind::RBRACE,
            TokenKind::COMMA,
            TokenKind::DOT,
            TokenKind::SEMICOLON,
            TokenKind::PLUS,
            TokenKind::MINUS,
            TokenKind::STAR,
            TokenKind::SLASH,
            TokenKind::EQUAL,
            TokenKind::EEQUAL,
            TokenKind::BANG,
            TokenKind::BEQUAL,
            TokenKind::RANGLE,
            TokenKind::RANGLEEQUAL,
            TokenKind::LANGLE,
            TokenKind::LANGLEEQUAL,
            TokenKind::EOF,
        ]
    );
}

#[test]
fn comment_runs_to_the_newline_which_stays() {
    let mut l = Lexer::new("a // note\nb");
    let toks = l.lex().unwrap();
    assert_eq!(toks.len(), 4);
    assert_eq!(toks[1].kind, TokenKind::COMMENT);
    assert_eq!((toks[1].span.start, toks[1].span.end), (2, 9));
    assert_eq!(toks[1].line, 1);
    assert_eq!(toks[2].kind, TokenKind::IDENTIFIER);
    assert_eq!(toks[2].line, 2);
    assert_eq!((toks[3].span.start, toks[3].span.end, toks[3].line), (11, 11, 2));
}

#[test]
fn empty_source_gives_only_eof() {
    let mut l = Lexer::new("");
    let toks = l.lex().unwrap();
    assert_eq!(toks.len(), 1);
    assert_eq!(toks[0].kind, TokenKind::EOF);
    assert_eq!((toks[0].span.start, toks[0].span.end, toks[0].line), (0, 0, 1));
}

#[test]
fn string_token_carries_the_line_it_ends_on() {
    let mut l = Lexer::new("\"a\nb\" x");
    let toks = l.lex().unwrap();
    assert_eq!(toks[0].kind, TokenKind::STRING);
    assert_eq!((toks[0].span.start, toks[0].span.end, toks[0].line), (0, 5, 2));
    assert_eq!((toks[1].span.start, toks[1].line), (6, 2));
}

#[test]
fn unclosed_string_is_an_error() {
    assert_eq!(lex_error("print \"abc"), "unclosing quotes");
}

#[test]
fn dot_not_followed_by_a_digit_is_an_error() {
    assert_eq!(lex_error("1.x"), "empty number fraction");
}

#[test]
fn number_may_end_with_a_dot_at_the_end_of_source() {
    let mut l = Lexer::new("12.");
    let toks = l.lex().unwrap();
    assert_eq!(toks[0].kind, TokenKind::NUMBER);
    assert_eq!((toks[0].span.start, toks[0].span.end), (0, 3));
}

#[test]
fn unknown_character_reports_line_and_position() {
    assert_eq!(lex_error("a\n  @"), "2:4: unknown character");
    assert_eq!(lex_error("#"), "1:0: unknown character");
}

#[test]
fn identifiers_may_hold_digits_and_underscores() {
    let mut l = Lexer::new("_a1 b_2 nil2");
    let toks = l.lex().unwrap();
    assert_eq!(toks[0].kind, TokenKind::IDENTIFIER);
    assert_eq!((toks[0].span.start, toks[0].span.end), (0, 3));
    assert_eq!(toks[1].kind, TokenKind::IDENTIFIER);
    assert_eq!(toks[2].kind, TokenKind::IDENTIFIER);
}

#[test]
fn lexing_twice_gives_the_same_tokens() {
    let mut l = Lexer::new("var x = 1;\nprint x;");
    let a: Vec<(TokenKind, usize, usize, usize)> =
        l.lex().unwrap().iter().map(|t| (t.kind, t.span.start, t.span.end, t.line)).collect();
    let b: Vec<(TokenKind, usize, usize, usize)> =
        l.lex().unwrap().iter().map(|t| (t.kind, t.span.start, t.span.end, t.line)).collect();
    assert_eq!(a, b);
}

#[test]
fn token_spans_are_ordered_and_end_with_eof() {
    let src = "fun f(a, b) { return a >= b; } // done\nprint f(1, 2.5);";
    let mut l = Lexer::new(src);
    let toks = l.lex().unwrap();
    let n = src.chars().count();
    for w in toks.windows(2) {
        assert!(w[0].span.start < w[0].span.end);
        assert!(w[0].span.end <= w[1].span.start);
        assert!(w[0].kind != TokenKind::EOF);
    }
    let last = toks.last().unwrap();
    assert_eq!((last.kind, last.span.start, last.span.end), (TokenKind::EOF, n, n));
}

#[test]
fn token_new_builds_the_span() {
    let t = Token::new(TokenKind::NUMBER, (3, 7), 2);
    assert_eq!(t.span, Span::new(3, 7));
    assert_eq!(t.line, 2);
}

#[test]
fn is_digit_and_is_alpha_look_at_every_character() {
    let l = Lexer::new("");
    assert!(l.is_digit("0189"));
    assert!(!l.is_digit("1a"));
    assert!(l.is_alpha("a_Z"));
    assert!(!l.is_alpha("a1"));
}

#[test]
fn either_takes_the_long_form_only_when_the_second_character_follows() {
    let mut l = Lexer::new("==");
    l.advance();
    assert_eq!(l.either(TokenKind::EEQUAL, TokenKind::EQUAL), TokenKind::EEQUAL);
    let mut l = Lexer::new("=;");
    l.advance();
    assert_eq!(l.either(TokenKind::EEQUAL, TokenKind::EQUAL), TokenKind::EQUAL);
    assert_eq!(l.peek(0), Some(";"));
}

#[test]
fn match_identifier_classifies_keywords() {
    let mut l = Lexer::new("while1 while");
    l.advance();
    let t = l.match_identifier(&0);
    assert_eq!((t.kind, t.span.end), (TokenKind::IDENTIFIER, 6));
    l.advance();
    l.advance();
    let t = l.match_identifier(&7);
    assert_eq!((t.kind, t.span.start, t.span.end), (TokenKind::WHILE, 7, 12));
}

#[test]
fn span_lexeme_slices_bytes() {
    let src = "var name = 1;";
    assert_eq!(Span::new(4, 8).lexeme(src), "name");
    assert_eq!(Span::new(0, 0).lexeme(src), "");
    assert_eq!(Span::new(3, 6).lexeme("你好abc"), "好");
}

#[test]
fn every_token_of_an_ascii_source_cuts_out_its_text() {
    let src = "var answer = 42.5;\nprint \"hi\" >= answer;";
    let mut l = Lexer::new(src);
    let toks = l.lex().unwrap();
    let texts: Vec<&str> = toks.iter().map(|t| t.span.lexeme(src)).collect();
    assert_eq!(
        texts,
        vec!["var", "answer", "=", "42.5", ";", "print", "\"hi\"", ">=", "answer", ";", ""]
    );
}

#[test]
fn keywords_are_looked_up_at_byte_offsets() {
    // "é" takes two bytes, so the word `or` at characters 4..6 is looked up as the
    // bytes 4..6, " o", which is no keyword.
    let mut l = Lexer::new("\"é\" or");
    let toks = l.lex().unwrap();
    assert_eq!(toks[1].kind, TokenKind::IDENTIFIER);
    assert_eq!((toks[1].span.start, toks[1].span.end), (4, 6));
    let mut l = Lexer::new("or \"é\"");
    assert_eq!(l.lex().unwrap()[0].kind, TokenKind::OR);
}

#[test]
fn try_lex_refuses_a_word_off_a_character_boundary() {
    // The word `x` is at character 5, which as a byte offset falls inside the
    // second "你".
    let mut l = Lexer::new("\"你你\" x");
    assert!(l.try_lex().is_none());
    let mut l = Lexer::new("var x;");
    let toks = l.try_lex().unwrap().unwrap();
    assert_eq!(toks[0].kind, TokenKind::VAR);
    let mut l = Lexer::new("\"open");
    assert_eq!(lex_error_of(l.try_lex().unwrap()), "unclosing quotes");
}

fn lex_error_of(r: Result<Vec<Token>, Error>) -> String {
    match r {
        Err(Error::LexError(m)) => m,
        other => panic!("expected a lex error, got {:?}", other),
    }
}
