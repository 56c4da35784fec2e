use lexer::KeywordKind;
use lexer::Lexer;
use lexer::Token;
use lexer::TokenKind;

fn drain(mut lexer: Lexer) -> Vec<Token> {
    let mut tokens = Vec::new();
    while let Some(token) = lexer.next() {
        tokens.push(token);
    }
    tokens
}

#[test]
fn test_next() {
    let mut lexer = Lexer::new("foo 123");
    assert_eq!(Some(Token::new(TokenKind::Identifier, 0, 3, "foo")), lexer.next());
    assert_eq!(Some(Token::new(TokenKind::Whitespace, 3, 1, " ")), lexer.next());
    assert_eq!(Some(Token::new(TokenKind::Integer, 4, 3, "123")), lexer.next());
    assert_eq!(None, lexer.next());
}

#[test]
fn mod_test_peek() {
    let mut lexer = Lexer::new("foo bar");
    assert_eq!(Some(Token::new(TokenKind::Identifier, 0, 3, "foo")), lexer.peek());
    assert_eq!(Some(Token::new(TokenKind::Identifier, 0, 3, "foo")), lexer.peek());
    assert_eq!(Some(Token::new(TokenKind::Identifier, 0, 3, "foo")), lexer.next());
    assert_eq!(Some(Token::new(TokenKind::Whitespace, 3, 1, " ")), lexer.peek());
}

#[test]
fn mod_test_peek_at_offset() {
    let mut lexer = Lexer::new("foo bar");
    assert_eq!(Some(Token::new(TokenKind::Identifier, 0, 3, "foo")), lexer.peek_at_offset(0));
    assert_eq!(Some(Token::new(TokenKind::Whitespace, 3, 1, " ")), lexer.peek_at_offset(1));
    assert_eq!(Some(Token::new(TokenKind::Identifier, 4, 3, "bar")), lexer.peek_at_offset(2));
    assert_eq!(Some(Token::new(TokenKind::Identifier, 0, 3, "foo")), lexer.next());
    assert_eq!(Some(Token::new(TokenKind::Whitespace, 3, 1, " ")), lexer.peek());
}

#[test]
fn test_empty_input() {
    let mut lexer = Lexer::new("");
    assert_eq!(None, lexer.peek());
    assert_eq!(None, lexer.peek_at_offset(1));
    assert_eq!(None, lexer.next());
    assert_eq!(None, lexer.peek());
}

#[test]
fn test_unknown() {
    let lexer = Lexer::new("§");
    assert_eq!(drain(lexer), vec![Token::new(TokenKind::Unknown, 0, 1, "§")]);
}

#[test]
fn mod_test_emoji() {
    let lexer = Lexer::new("👨‍👩‍👧‍👦");
    // Joined code points are not merged, so every part of the family emoji
    // is its own token. Offsets and lengths count code points, not bytes.
    assert_eq!(
        drain(lexer),
        vec![
            Token::new(TokenKind::Unknown, 0, 1, "👨"),
            Token::new(TokenKind::Unknown, 1, 1, "\u{200d}"),
            Token::new(TokenKind::Unknown, 2, 1, "👩"),
            Token::new(TokenKind::Unknown, 3, 1, "\u{200d}"),
            Token::new(TokenKind::Unknown, 4, 1, "👧"),
            Token::new(TokenKind::Unknown, 5, 1, "\u{200d}"),
            Token::new(TokenKind::Unknown, 6, 1, "👦"),
        ]
    );
}

#[test]
fn test_identifier() {
    let lexer = Lexer::new("foo");
    assert_eq!(drain(lexer), vec![Token::new(TokenKind::Identifier, 0, 3, "foo")]);
}

#[test]
fn test_identifier_with_number() {
    let lexer = Lexer::new("foo123");
    assert_eq!(drain(lexer), vec![Token::new(TokenKind::Identifier, 0, 6, "foo123")]);
}

#[test]
fn test_identifier_with_underscore() {
    let lexer = Lexer::new("foo_bar");
    assert_eq!(drain(lexer), vec![Token::new(TokenKind::Identifier, 0, 7, "foo_bar")]);
}

#[test]
fn test_identifier_starts_with_underscore() {
    let lexer = Lexer::new("_foo");
    assert_eq!(drain(lexer), vec![Token::new(TokenKind::Identifier, 0, 4, "_foo")]);
}

#[test]
fn test_whitespace() {
    let lexer = Lexer::new(" \n\n \t ");
    assert_eq!(drain(lexer), vec![Token::new(TokenKind::Whitespace, 0, 6, " \n\n \t ")]);
}

#[test]
fn test_integer() {
    let lexer = Lexer::new("123 456 0");
    assert_eq!(
        drain(lexer),
        vec![
            Token::new(TokenKind::Integer, 0, 3, "123"),
            Token::new(TokenKind::Whitespace, 3, 1, " "),
            Token::new(TokenKind::Integer, 4, 3, "456"),
            Token::new(TokenKind::Whitespace, 7, 1, " "),
            Token::new(TokenKind::Integer, 8, 1, "0"),
        ]
    );
}

#[test]
fn test_keyword() {
    let lexer = Lexer::new("module class let function constant mutable");
    assert_eq!(
        drain(lexer),
        vec![
            Token::new(TokenKind::Keyword(KeywordKind::Module), 0, 6, "module"),
            Token::new(TokenKind::Whitespace, 6, 1, " "),
            Token::new(TokenKind::Keyword(KeywordKind::Class), 7, 5, "class"),
            Token::new(TokenKind::Whitespace, 12, 1, " "),
            Token::new(TokenKind::Keyword(KeywordKind::Field), 13, 3, "let"),
            Token::new(TokenKind::Whitespace, 16, 1, " "),
            Token::new(TokenKind::Keyword(KeywordKind::Function), 17, 8, "function"),
            Token::new(TokenKind::Whitespace, 25, 1, " "),
            Token::new(TokenKind::Keyword(KeywordKind::Constant), 26, 8, "constant"),
            Token::new(TokenKind::Whitespace, 34, 1, " "),
            Token::new(TokenKind::Keyword(KeywordKind::Mutable), 35, 7, "mutable"),
        ]
    );
}

#[test]
fn test_punctuation() {
    let lexer = Lexer::new(",:;=->");
    assert_eq!(
        drain(lexer),
        vec![
            Token::new(TokenKind::Comma, 0, 1, ","),
            Token::new(TokenKind::Colon, 1, 1, ":"),
            Token::new(TokenKind::Semicolon, 2, 1, ";"),
            Token::new(TokenKind::Equals, 3, 1, "="),
            Token::new(TokenKind::Minus, 4, 1, "-"),
            Token::new(TokenKind::GreaterThan, 5, 1, ">"),
        ]
    );
}

#[test]
fn test_delimiter() {
    let lexer = Lexer::new("{}()");
    assert_eq!(
        drain(lexer),
        vec![
            Token::new(TokenKind::LeftBrace, 0, 1, "{"),
            Token::new(TokenKind::RightBrace, 1, 1, "}"),
            Token::new(TokenKind::LeftParentheses, 2, 1, "("),
            Token::new(TokenKind::RightParentheses, 3, 1, ")"),
        ]
    );
}

#[test]
fn test_function() {
    let lexer = Lexer::new("function foo(x: Integer) -> Integer { x }");
    assert_eq!(
        drain(lexer),
        vec![
            Token::new(TokenKind::Keyword(KeywordKind::Function), 0, 8, "function"),
            Token::new(TokenKind::Whitespace, 8, 1, " "),
            Token::new(TokenKind::Identifier, 9, 3, "foo"),
            Token::new(TokenKind::LeftParentheses, 12, 1, "("),
            Token::new(TokenKind::Identifier, 13, 1, "x"),
            Token::new(TokenKind::Colon, 14, 1, ":"),
            Token::new(TokenKind::Whitespace, 15, 1, " "),
            Token::new(TokenKind::Identifier, 16, 7, "Integer"),
            Token::new(TokenKind::RightParentheses, 23, 1, ")"),
            Token::new(TokenKind::Whitespace, 24, 1, " "),
            Token::new(TokenKind::Minus, 25, 1, "-"),
            Token::new(TokenKind::GreaterThan, 26, 1, ">"),
            Token::new(TokenKind::Whitespace, 27, 1, " "),
            Token::new(TokenKind::Identifier, 28, 7, "Integer"),
            Token::new(TokenKind::Whitespace, 35, 1, " "),
            Token::new(TokenKind::LeftBrace, 36, 1, "{"),
            Token::new(TokenKind::Whitespace, 37, 1, " "),
            Token::new(TokenKind::Identifier, 38, 1, "x"),
            Token::new(TokenKind::Whitespace, 39, 1, " "),
            Token::new(TokenKind::RightBrace, 40, 1, "}"),
        ]
    );
}
