use lexer::Cursor;
use lexer::Lexeme;

#[test]
fn test_close_lexeme_without_consuming() {
    let mut cursor = Cursor::new("");
    assert_eq!(cursor.close(), Lexeme { start_offset: 0, length: 0, text: "" });
}

#[test]
fn test_close_lexeme_after_consuming_empty_text() {
    let mut cursor = Cursor::new("");
    assert_eq!(cursor.consume(), None);
    assert_eq!(cursor.close(), Lexeme { start_offset: 0, length: 0, text: "" });
}

#[test]
fn test_close_lexeme() {
    let mut cursor = Cursor::new("abc");
    assert_eq!(cursor.consume(), Some('a'));
    assert_eq!(cursor.close(), Lexeme { start_offset: 0, length: 1, text: "a" });
}

#[test]
fn test_consume_while() {
    let mut cursor = Cursor::new("aaabc");
    assert_eq!(cursor.consume_while(|next| next == 'a'), 3);
    assert_eq!(cursor.close(), Lexeme { start_offset: 0, length: 3, text: "aaa" });
}

#[test]
fn lexeme_test_peek() {
    let mut cursor = Cursor::new("abc");
    assert_eq!(cursor.peek(), Some('a'));
    assert_eq!(cursor.peek(), Some('a'));
    assert_eq!(cursor.consume(), Some('a'));
    assert_eq!(cursor.peek(), Some('b'));
}

#[test]
fn lexeme_test_peek_at_offset() {
    let mut cursor = Cursor::new("abc");
    assert_eq!(cursor.peek_at_offset(0), Some('a'));
    assert_eq!(cursor.peek_at_offset(1), Some('b'));
    assert_eq!(cursor.consume(), Some('a'));
    assert_eq!(cursor.peek_at_offset(0), Some('b'));
    assert_eq!(cursor.peek_at_offset(1), Some('c'));
}

#[test]
fn lexeme_test_emoji() {
    let mut cursor = Cursor::new("👨‍👩‍👧‍👦");
    cursor.consume_while(|_| true);
    // Joined sequences of code points are not merged: the family emoji is
    // four emoji joined by three zero-width joiners, seven code points.
    assert_eq!(cursor.close(), Lexeme { start_offset: 0, length: 7, text: "👨‍👩‍👧‍👦" });
}
