use swc_lexer::stream::validate;
use swc_lexer::error::Error;
use swc_lexer::token::{Token, TokenKind};

#[test]
fn stream_is_checked_token_by_token() {
    let tokens = vec![
        Token::new(TokenKind::Other, 0, 0),
        Token::new(TokenKind::Other, 0, 1),
        Token::new(TokenKind::Str, 2, 6),
        Token::new(TokenKind::Template, 6, 6),
        Token::new(TokenKind::Other, 7, 9),
    ];
    assert_eq!(validate("é 'ab' é", &tokens), Err(Error::BadSpan));
    let tokens = vec![
        Token::new(TokenKind::Other, 0, 0),
        Token::new(TokenKind::Other, 0, 2),
        Token::new(TokenKind::Str, 3, 7),
        Token::new(TokenKind::Template, 7, 7),
        Token::new(TokenKind::Other, 8, 10),
    ];
    assert_eq!(validate("é 'ab' é", &tokens), Ok(()));
    assert_eq!(validate("", &vec![]), Ok(()));
    assert_eq!(validate("", &vec![Token::new(TokenKind::Template, 0, 0)]), Ok(()));
}

#[test]
fn stream_out_of_order_is_refused() {
    let tokens = vec![Token::new(TokenKind::Other, 2, 3), Token::new(TokenKind::Other, 0, 1)];
    assert_eq!(validate("a b", &tokens), Err(Error::BadSpan));
}

#[test]
fn stream_with_an_error_token_is_refused() {
    let tokens = vec![Token::new(TokenKind::Other, 0, 1), Token::new(TokenKind::Error, 9, 0)];
    assert_eq!(validate("a b", &tokens), Err(Error::Lexical));
}
