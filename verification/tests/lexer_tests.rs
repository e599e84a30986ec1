use minidart::lexer::{chars_of, lex};
use minidart::token::Token;

fn texts(src: &str) -> Vec<String> {
    lex(src).unwrap().tokens().iter().map(|t| t.text()).collect()
}

fn error(src: &str) -> (String, usize, usize) {
    match lex(src) {
        Ok(_) => panic!("lexed"),
        Err(e) => (e.message, e.line, e.column),
    }
}

#[test]
fn empty_source_is_the_sentinel() {
    let r = lex("").unwrap();
    assert_eq!(r.len(), 1);
    assert!(matches!(r.sym(), Some(Token::End)));
    let r = lex("  \n\t ").unwrap();
    assert_eq!(r.len(), 1);
}

#[test]
fn keywords_names_and_literals() {
    assert_eq!(
        texts("class if else while do for return import this true false foo _x1 12 3.25"),
        vec![
            "class", "if", "else", "while", "do", "for", "return", "import", "this", "true",
            "false", "foo", "_x1", "12", "3.25", "EOF"
        ]
    );
    let r = lex("true classy 7").unwrap();
    let t = r.tokens();
    assert!(matches!(&t[0], Token::Bool(true, 1, 1)));
    assert!(matches!(&t[1], Token::Name(s, 1, 6) if s == "classy"));
    assert!(matches!(&t[2], Token::Int(7, 1, 13)));
}

#[test]
fn longer_operators_win() {
    assert_eq!(
        texts("== = <= < >= > && & || | ++ + -- - * / ! ^ . ( ) [ ] { } , ;"),
        vec![
            "==", "=", "<=", "<", ">=", ">", "&&", "&", "||", "|", "++", "+", "--", "-", "*",
            "/", "!", "^", ".", "(", ")", "[", "]", "{", "}", ",", ";", "EOF"
        ]
    );
    assert_eq!(texts("a+++b"), vec!["a", "++", "+", "b", "EOF"]);
    assert_eq!(texts("a===b"), vec!["a", "==", "=", "b", "EOF"]);
}

#[test]
fn positions_count_lines_and_columns_from_one() {
    let r = lex("a\n  b = 10;\n\nc").unwrap();
    let at: Vec<(usize, usize)> = r.tokens().iter().map(|t| t.find_token_position()).collect();
    assert_eq!(at, vec![(1, 1), (2, 3), (2, 5), (2, 7), (2, 9), (4, 1), (0, 0)]);
}

#[test]
fn a_point_needs_digits_on_both_sides() {
    assert_eq!(texts("1.5"), vec!["1.5", "EOF"]);
    assert_eq!(texts("1.x"), vec!["1", ".", "x", "EOF"]);
    assert_eq!(texts("1."), vec!["1", ".", "EOF"]);
    assert_eq!(texts("1.5.2"), vec!["1.5", ".", "2", "EOF"]);
}

#[test]
fn integers_must_fit_into_64_bits() {
    let r = lex("9223372036854775807").unwrap();
    assert!(matches!(r.sym(), Some(Token::Int(i64::MAX, 1, 1))));
    assert_eq!(
        error("  9223372036854775808"),
        ("Integer literal out of range.".to_string(), 1, 3)
    );
    assert_eq!(
        error("99999999999999999999999999"),
        ("Integer literal out of range.".to_string(), 1, 1)
    );
    let r = lex("0007").unwrap();
    assert!(matches!(r.sym(), Some(Token::Int(7, 1, 1))));
}

#[test]
fn strings_and_escapes() {
    let r = lex("\"a\\n\\t\\\"\\\\\\$b\"").unwrap();
    match r.sym() {
        Some(Token::Str(s, holes, 1, 1)) => {
            assert_eq!(s, "a\n\t\"\\$b");
            assert!(holes.is_empty());
        }
        other => panic!("{:?}", other),
    }
    assert_eq!(error("\"a\\qb\""), ("Unknown escape.".to_string(), 1, 3));
    assert_eq!(texts("\"hi\" x"), vec!["\"hi\"", "x", "EOF"]);
}

#[test]
fn holes_are_lexed_into_the_literal() {
    let r = lex("\"a${x + 1}b${y}\" z").unwrap();
    assert_eq!(r.len(), 3);
    match r.sym() {
        Some(Token::Str(s, holes, 1, 1)) => {
            assert_eq!(s, "a\0b\0");
            assert_eq!(holes.len(), 2);
            let first: Vec<String> = holes[0].iter().map(|t| t.text()).collect();
            assert_eq!(first, vec!["x", "+", "1", "EOF"]);
            assert!(matches!(&holes[0][0], Token::Name(_, 1, 5)));
            let second: Vec<String> = holes[1].iter().map(|t| t.text()).collect();
            assert_eq!(second, vec!["y", "EOF"]);
        }
        other => panic!("{:?}", other),
    }
}

#[test]
fn holes_nest_and_count_braces() {
    let r = lex("\"a${\"b${1+1}c\"}d\"").unwrap();
    match r.sym() {
        Some(Token::Str(s, holes, _, _)) => {
            assert_eq!(s, "a\0d");
            assert_eq!(holes.len(), 1);
            match &holes[0][0] {
                Token::Str(inner, inner_holes, _, _) => {
                    assert_eq!(inner, "b\0c");
                    let toks: Vec<String> = inner_holes[0].iter().map(|t| t.text()).collect();
                    assert_eq!(toks, vec!["1", "+", "1", "EOF"]);
                }
                other => panic!("{:?}", other),
            }
        }
        other => panic!("{:?}", other),
    }
    let r = lex("\"${ {a} }\"").unwrap();
    match r.sym() {
        Some(Token::Str(_, holes, _, _)) => {
            let toks: Vec<String> = holes[0].iter().map(|t| t.text()).collect();
            assert_eq!(toks, vec!["{", "a", "}", "EOF"]);
        }
        other => panic!("{:?}", other),
    }
}

#[test]
fn unterminated_literals() {
    assert_eq!(error("x = \"abc"), ("Unterminated string.".to_string(), 1, 5));
    assert_eq!(error("\"abc\\"), ("Unterminated string.".to_string(), 1, 1));
    assert_eq!(error("\n \"a${x \""), ("Unterminated string.".to_string(), 2, 8));
    assert_eq!(error("\"a${x"), ("Unterminated interpolation.".to_string(), 1, 6));
}

#[test]
fn unknown_characters() {
    assert_eq!(error("a # b"), ("Unexpected character.".to_string(), 1, 3));
    assert_eq!(error("a\n@"), ("Unexpected character.".to_string(), 2, 1));
    assert_eq!(error("\"a\0b\""), ("Unexpected character.".to_string(), 1, 3));
}

#[test]
fn chars_of_keeps_every_character() {
    assert_eq!(chars_of("aé\n"), vec!['a', 'é', '\n']);
    assert!(chars_of("").is_empty());
}
