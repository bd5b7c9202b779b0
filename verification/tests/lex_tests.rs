use zerox::lex::{Lexer, TokenKind};

#[test]
fn test_advance() {
    let mut l = Lexer::new("你好，world!");

    assert_eq!(Some("你"), l.advance());
    assert_eq!(Some("好"), l.advance());
    assert_eq!(Some("，"), l.advance());
    assert_eq!(Some("w"), l.advance());
    assert_eq!(Some("o"), l.advance());
    assert_eq!(Some("r"), l.advance());
    assert_eq!(Some("l"), l.advance());
    assert_eq!(Some("d"), l.advance());
    assert_eq!(Some("!"), l.advance());
}

#[test]
fn test_peek() {
    let mut l = Lexer::new("你好，world!");

    assert_eq!(Some("!"), l.peek(8));

    assert_eq!(Some("你"), l.advance());
    assert_eq!(Some("好"), l.advance());

    assert_eq!(Some("，"), l.peek(0));
    assert_eq!(Some("!"), l.peek(6));

    assert_eq!(None, l.peek(7));
}

#[test]
fn test_match_string() {
    let mut l = Lexer::new("\"abc\ndef\"");
    let mut start = 0;

    assert_eq!(Some("\""), l.advance());

    let tok = l.match_string(&mut start).unwrap();
    assert_eq!((0, 9), (tok.span.start, tok.span.end));
}

#[test]
fn test_match_number() {
    let mut l = Lexer::new("123.456");
    let mut start = 0;

    assert_eq!(Some("1"), l.advance());

    let tok = l.match_number(&mut start).unwrap();
    assert_eq!((0, 7), (tok.span.start, tok.span.end));
}

#[test]
fn test_match_keywords() {
    // kevwords
    let mut l = Lexer::new(
        "
        true
        false
        nil
        var
        or
        and
        if
        else
        for
        while
        fun
        return
        class
        super
        this
        print
        ",
    );

    let tokens = l.lex().unwrap();
    assert_eq!(16 + 1, tokens.len());

    let mut it = tokens.into_iter();
    assert_eq!(TokenKind::TRUE, it.next().unwrap().kind);
    assert_eq!(TokenKind::FALSE, it.next().unwrap().kind);
    assert_eq!(TokenKind::NIL, it.next().unwrap().kind);
    assert_eq!(TokenKind::VAR, it.next().unwrap().kind);
    assert_eq!(TokenKind::OR, it.next().unwrap().kind);
    assert_eq!(TokenKind::AND, it.next().unwrap().kind);
    assert_eq!(TokenKind::IF, it.next().unwrap().kind);
    assert_eq!(TokenKind::ELSE, it.next().unwrap().kind);
    assert_eq!(TokenKind::FOR, it.next().unwrap().kind);
    assert_eq!(TokenKind::WHILE, it.next().unwrap().kind);
    assert_eq!(TokenKind::FUN, it.next().unwrap().kind);
    assert_eq!(TokenKind::RETURN, it.next().unwrap().kind);
    assert_eq!(TokenKind::CLASS, it.next().unwrap().kind);
    assert_eq!(TokenKind::SUPER, it.next().unwrap().kind);
    assert_eq!(TokenKind::THIS, it.next().unwrap().kind);
    assert_eq!(TokenKind::PRINT, it.next().unwrap().kind);
    assert_eq!(TokenKind::EOF, it.next().unwrap().kind);
}

#[test]
fn test_match_identifier() {
    let mut l = Lexer::new("or orchid ororchid");

    let mut it = l.lex().unwrap().into_iter();
    assert_eq!(TokenKind::OR, it.next().unwrap().kind);
    assert_eq!(TokenKind::IDENTIFIER, it.next().unwrap().kind);
    assert_eq!(TokenKind::IDENTIFIER, it.next().unwrap().kind);
    assert_eq!(TokenKind::EOF, it.next().unwrap().kind);
}
