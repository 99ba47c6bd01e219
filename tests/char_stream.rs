use lox_lexer::scanner::{decimal_i64, keyword_of};
use lox_lexer::{CharStream, TokenType};

#[test]
fn next_walks_and_stops_at_end() {
    let mut cs = CharStream::new("ab");
    assert_eq!(cs.current_char(), Some('a'));
    assert_eq!(cs.next(), Some('a'));
    assert_eq!(cs.next(), Some('b'));
    assert!(cs.is_exhausted());
    assert_eq!(cs.next(), None);
    assert_eq!(cs.get_position(), 2);
}

#[test]
fn peek_looks_ahead_without_consuming() {
    let cs = CharStream::new("xyz");
    assert_eq!(cs.peek(), Some('y'));
    assert_eq!(cs.peek_n(0), Some('x'));
    assert_eq!(cs.peek_n(2), Some('z'));
    assert_eq!(cs.peek_n(3), None);
    assert_eq!(cs.peek_n(usize::MAX), None);
    assert_eq!(cs.get_position(), 0);
}

#[test]
fn matches_consumes_only_expected() {
    let mut cs = CharStream::new("=x");
    assert!(!cs.matches('x'));
    assert_eq!(cs.get_position(), 0);
    assert!(cs.matches('='));
    assert_eq!(cs.get_position(), 1);
}

#[test]
fn revert_and_reset_move_back() {
    let mut cs = CharStream::new("abc");
    cs.next();
    cs.next();
    cs.revert();
    assert_eq!(cs.get_position(), 1);
    assert_eq!(cs.current_char(), Some('b'));
    cs.reset();
    assert_eq!(cs.get_position(), 0);
    assert!(!cs.is_exhausted());
}

#[test]
fn decimal_values_and_overflow() {
    let digits: Vec<char> = "0042".chars().collect();
    assert_eq!(decimal_i64(&digits), Some(42));
    let max: Vec<char> = "9223372036854775807".chars().collect();
    assert_eq!(decimal_i64(&max), Some(i64::MAX));
    let over: Vec<char> = "92233720368547758070".chars().collect();
    assert_eq!(decimal_i64(&over), None);
    assert_eq!(decimal_i64(&[]), Some(0));
}

#[test]
fn keyword_table_lookup() {
    let w: Vec<char> = "while".chars().collect();
    assert_eq!(keyword_of(&w), Some(TokenType::While));
    let w: Vec<char> = "whilst".chars().collect();
    assert_eq!(keyword_of(&w), None);
}
