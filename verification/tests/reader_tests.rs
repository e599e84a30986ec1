use minidart::reader::Reader;
use minidart::token::Token;

fn sample() -> Vec<Token> {
    vec![
        Token::Name("x".to_string(), 1, 1),
        Token::Assign(1, 3),
        Token::Int(42, 1, 5),
        Token::EndSt(1, 7),
        Token::End,
    ]
}

#[test]
fn reader_starts_at_first_token() {
    let r = Reader::new(sample());
    assert_eq!(r.pos(), 0);
    assert_eq!(r.len(), 5);
    assert!(r.more());
    assert!(matches!(r.sym(), Some(Token::Name(s, 1, 1)) if s == "x"));
    assert!(matches!(r.peek(), Some(Token::Assign(1, 3))));
    assert_eq!(r.tokens().len(), 5);
}

#[test]
fn next_advances_and_returns_the_new_token() {
    let mut r = Reader::new(sample());
    assert!(matches!(r.next(), Some(Token::Assign(1, 3))));
    assert_eq!(r.pos(), 1);
    assert!(matches!(r.next(), Some(Token::Int(42, 1, 5))));
    assert!(matches!(r.next(), Some(Token::EndSt(1, 7))));
    assert!(r.more());
    assert!(matches!(r.next(), Some(Token::End)));
    assert!(!r.more());
    assert!(matches!(r.peek(), None));
    assert!(matches!(r.next(), None));
    assert_eq!(r.pos(), 5);
    assert!(matches!(r.sym(), None));
}

#[test]
fn more_is_false_on_the_last_token_and_on_no_tokens() {
    let r = Reader::new(vec![Token::End]);
    assert!(!r.more());
    let r = Reader::new(Vec::new());
    assert!(!r.more());
    assert_eq!(r.len(), 0);
    assert!(matches!(r.sym(), None));
}

#[test]
fn expect_compares_the_printed_token() {
    let mut r = Reader::new(sample());
    assert_eq!(r.expect("x"), Ok(()));
    assert_eq!(r.expect("="), Err("Expected: '='. Got: 'x'.".to_string()));
    assert_eq!(r.pos(), 0);
    r.next();
    assert_eq!(r.expect("="), Ok(()));
    r.next();
    assert_eq!(r.expect("42"), Ok(()));
    assert_eq!(r.expect(";"), Err("Expected: ';'. Got: '42'.".to_string()));
}

#[test]
fn skip_advances_only_on_a_match() {
    let mut r = Reader::new(sample());
    assert_eq!(r.skip("y"), Err("Expected: 'y'. Got: 'x'.".to_string()));
    assert_eq!(r.pos(), 0);
    assert_eq!(r.skip("x"), Ok(()));
    assert_eq!(r.pos(), 1);
    assert_eq!(r.skip("="), Ok(()));
    assert_eq!(r.skip("42"), Ok(()));
    assert_eq!(r.skip(";"), Ok(()));
    assert_eq!(r.skip("EOF"), Ok(()));
    assert_eq!(r.pos(), 5);
}

#[test]
fn expect_behind_the_last_token() {
    let mut r = Reader::new(vec![Token::End]);
    r.next();
    assert_eq!(
        r.expect(";"),
        Err("Index out of bounds while expecting symbol: ';'".to_string())
    );
    assert_eq!(
        r.skip(";"),
        Err("Index out of bounds while expecting symbol: ';'".to_string())
    );
    assert_eq!(r.pos(), 1);
}

#[test]
fn fault_takes_the_position_of_the_token() {
    let r = Reader::new(sample());
    let e = r.fault(2, "boom".to_string());
    assert_eq!((e.message.as_str(), e.line, e.column), ("boom", 1, 5));
    let e = r.fault(9, "late".to_string());
    assert_eq!((e.message.as_str(), e.line, e.column), ("late", 0, 0));
}
