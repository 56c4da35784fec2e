use lexer::Token;
use lexer::TokenKind;

#[test]
fn test_combine_right_arrow() {
    let text = "->";
    let parts = vec![
        Token::new(TokenKind::Minus, 0, 1, "-"),
        Token::new(TokenKind::GreaterThan, 1, 1, ">"),
    ];
    let result = TokenKind::RightArrow.combine(text, &parts);
    assert_eq!(result, Some(Token::new(TokenKind::RightArrow, 0, 2, "->")));
}

#[test]
fn test_combine_path_separator() {
    let text = "::";
    let parts = vec![
        Token::new(TokenKind::Colon, 0, 1, ":"),
        Token::new(TokenKind::Colon, 1, 1, ":"),
    ];
    let result = TokenKind::PathSeparator.combine(text, &parts);
    assert_eq!(result, Some(Token::new(TokenKind::PathSeparator, 0, 2, "::")));
}

#[test]
fn test_combine_wrong_parts() {
    let text = "-;";
    let parts = vec![
        Token::new(TokenKind::Minus, 0, 1, "-"),
        Token::new(TokenKind::Semicolon, 1, 1, ";"),
    ];
    let result = TokenKind::RightArrow.combine(text, &parts);
    assert_eq!(result, None);
}

#[test]
fn test_combine_non_consecutive() {
    let text = "- >";
    let parts = vec![
        Token::new(TokenKind::Minus, 0, 1, "-"),
        Token::new(TokenKind::GreaterThan, 2, 1, ">"),
    ];
    let result = TokenKind::RightArrow.combine(text, &parts);
    assert_eq!(result, None);
}

#[test]
fn test_combine_single_token() {
    let text = ",";
    let parts = vec![Token::new(TokenKind::Comma, 0, 1, ",")];
    let result = TokenKind::Comma.combine(text, &parts);
    assert_eq!(result, Some(Token::new(TokenKind::Comma, 0, 1, ",")));
}

#[test]
fn test_combine_insufficient_parts() {
    let text = "-";
    let parts = vec![Token::new(TokenKind::Minus, 0, 1, "-")];
    let result = TokenKind::RightArrow.combine(text, &parts);
    assert_eq!(result, None);
}
