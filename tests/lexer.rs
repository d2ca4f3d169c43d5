use bfi::lexer::{is_symbol_byte, Lexer, Token};

#[test]
fn symbols_only() {
    let mut lexer = Lexer::new(b"<>+-.,[]");

    assert_eq!(lexer.next(), Some(Token::ChevronL));
    assert_eq!(lexer.next(), Some(Token::ChevronR));
    assert_eq!(lexer.next(), Some(Token::Plus));
    assert_eq!(lexer.next(), Some(Token::Minus));
    assert_eq!(lexer.next(), Some(Token::Dot));
    assert_eq!(lexer.next(), Some(Token::Comma));
    assert_eq!(lexer.next(), Some(Token::BracketL));
    assert_eq!(lexer.next(), Some(Token::BracketR));
    assert!(lexer.next().is_none());
}

#[test]
fn comment_only() {
    let mut lexer = Lexer::new(b"hello");
    assert_eq!(lexer.next(), Some(Token::Comment(b"hello")));
    assert!(lexer.next().is_none());
}

#[test]
fn mixed() {
    let mut lexer = Lexer::new(b"[]<>hello>");
    assert_eq!(lexer.next(), Some(Token::BracketL));
    assert_eq!(lexer.next(), Some(Token::BracketR));
    assert_eq!(lexer.next(), Some(Token::ChevronL));
    assert_eq!(lexer.next(), Some(Token::ChevronR));
    assert_eq!(lexer.next(), Some(Token::Comment(b"hello")));
    assert_eq!(lexer.next(), Some(Token::ChevronR));
    assert!(lexer.next().is_none());
}

#[test]
fn empty_source_has_no_token() {
    let mut lexer = Lexer::new(b"");
    assert!(lexer.next().is_none());
    assert!(lexer.next().is_none());
    assert!(Token::parse(b"").is_none());
}

#[test]
fn comment_with_newlines_and_high_bytes_is_one_token() {
    let src: &[u8] = &[b'a', b'\n', 0xff, 0x00, b' ', b'z'];
    let mut lexer = Lexer::new(src);
    assert_eq!(lexer.next(), Some(Token::Comment(src)));
    assert!(lexer.next().is_none());
}

#[test]
fn parse_returns_rest_after_token() {
    let (rest, tok) = Token::parse(b"ab+c").unwrap();
    assert_eq!(tok, Token::Comment(b"ab"));
    assert_eq!(rest, b"+c");
    let (rest, tok) = Token::parse(rest).unwrap();
    assert_eq!(tok, Token::Plus);
    assert_eq!(rest, b"c");
}

#[test]
fn symbol_bytes_are_the_eight_operators() {
    let ops = b"<>+-.,[]";
    let mut n = 0;
    for b in 0..=255u8 {
        if is_symbol_byte(b) {
            assert!(ops.contains(&b));
            n += 1;
        }
    }
    assert_eq!(n, 8);
}
