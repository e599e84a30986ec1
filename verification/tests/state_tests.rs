use minidart::context::Ctx;
use minidart::node::{Node, NodeType};
use minidart::object::{Class, Function, ParamObj};
use minidart::objsys::ObjSys;
use minidart::stack::Stack;
use minidart::text::{joined, owned, signed_decimal, string_of_chars, unsigned_decimal};
use minidart::token::Token;
use minidart::utils::{dart_evalerror, dart_parseerror, ParseError};
use minidart::value::Value;

fn as_int(v: &Option<Value>) -> Option<i64> {
    match v {
        Some(Value::Int(i)) => Some(*i),
        _ => None,
    }
}

#[test]
fn decimal_numerals() {
    assert_eq!(unsigned_decimal(0), "0");
    assert_eq!(unsigned_decimal(7), "7");
    assert_eq!(unsigned_decimal(1203), "1203");
    assert_eq!(unsigned_decimal(u64::MAX), "18446744073709551615");
    assert_eq!(signed_decimal(0), "0");
    assert_eq!(signed_decimal(-1), "-1");
    assert_eq!(signed_decimal(i64::MAX), "9223372036854775807");
    assert_eq!(signed_decimal(i64::MIN), "-9223372036854775808");
}

#[test]
fn strings_are_built_in_order() {
    assert_eq!(string_of_chars(&vec!['a', 'b', 'c']), "abc");
    assert_eq!(string_of_chars(&Vec::new()), "");
    assert_eq!(joined(owned("ab"), "cd"), "abcd");
}

#[test]
fn tokens_print_as_written() {
    assert_eq!(Token::Int(-5, 1, 1).text(), "-5");
    assert_eq!(Token::Double("1.50".to_string(), 1, 1).text(), "1.50");
    assert_eq!(Token::Bool(true, 1, 1).text(), "true");
    assert_eq!(Token::Str("hi".to_string(), Vec::new(), 1, 1).text(), "\"hi\"");
    assert_eq!(Token::Name("foo".to_string(), 1, 1).text(), "foo");
    assert_eq!(Token::GreaterOrEq(1, 1).text(), ">=");
    assert_eq!(Token::End.text(), "EOF");
    assert_eq!(Token::While(3, 4).find_token_position(), (3, 4));
    let t = Token::Str("a".to_string(), vec![vec![Token::Name("x".to_string(), 1, 5), Token::End]], 1, 1);
    match t.clone() {
        Token::Str(s, holes, 1, 1) => {
            assert_eq!(s, "a");
            assert_eq!(holes.len(), 1);
            assert!(matches!(&holes[0][0], Token::Name(n, 1, 5) if n == "x"));
        }
        other => panic!("{:?}", other),
    }
}

#[test]
fn diagnostics() {
    let ctx = Ctx::new("main.dart".to_string(), false);
    let tokens = vec![Token::Name("x".to_string(), 3, 14), Token::End];
    assert_eq!(dart_parseerror("Oops.", &ctx, &tokens, 0), "main.dart:3:14: Error: Oops.");
    assert_eq!(dart_parseerror("End.", &ctx, &tokens, 1), "main.dart:0:0: Error: End.");
    assert_eq!(dart_evalerror("Oops.", &ctx), "main.dart: Error: Oops.");
    let e = ParseError { message: "Bad.".to_string(), line: 12, column: 1 };
    assert_eq!(e.report(&ctx), "main.dart:12:1: Error: Bad.");
}

#[test]
fn nodes_are_built_from_their_parts() {
    let mut n = Node::new(NodeType::List);
    assert!(n.children.is_empty());
    n.add_child(Node::new(NodeType::Int(1)));
    n.add_child(Node::new(NodeType::Int(2)));
    assert_eq!(n.children.len(), 2);
    assert!(matches!(n.children[1].nodetype, NodeType::Int(2)));
    let b = Node::binary(NodeType::Add, Node::new(NodeType::Int(1)), n.clone());
    assert!(matches!(b.nodetype, NodeType::Add));
    assert!(matches!(b.children[0].nodetype, NodeType::Int(1)));
    assert_eq!(b.children[1].children.len(), 2);
    let u = Node::unary(NodeType::Not, Node::new(NodeType::Bool(true)));
    assert_eq!(u.children.len(), 1);
}

#[test]
fn lookup_walks_scopes_from_the_innermost() {
    let mut s = Stack::new();
    assert_eq!(s.depth(), 0);
    assert!(!s.declare("x".to_string(), Value::Int(1)));
    assert!(!s.assign("x".to_string(), Value::Int(1)));
    assert!(!s.push_lex());
    assert!(s.lookup(&"x".to_string()).is_none());
    s.push_call();
    assert_eq!((s.depth(), s.scopes()), (1, 1));
    assert!(s.declare("x".to_string(), Value::Int(1)));
    assert!(s.push_lex());
    assert_eq!(s.scopes(), 2);
    assert_eq!(as_int(&s.lookup(&"x".to_string())), Some(1));
    assert!(s.declare("x".to_string(), Value::Int(2)));
    assert_eq!(as_int(&s.lookup(&"x".to_string())), Some(2));
    assert!(s.pop_lex());
    assert_eq!(as_int(&s.lookup(&"x".to_string())), Some(1));
    assert!(!s.pop_lex());
    assert_eq!(s.scopes(), 1);
}

#[test]
fn assign_writes_where_the_name_is_bound() {
    let mut s = Stack::new();
    s.push_call();
    s.declare("x".to_string(), Value::Int(1));
    s.push_lex();
    assert!(s.assign("x".to_string(), Value::Int(5)));
    assert!(s.assign("y".to_string(), Value::Int(7)));
    assert_eq!(as_int(&s.lookup(&"y".to_string())), Some(7));
    s.pop_lex();
    assert_eq!(as_int(&s.lookup(&"x".to_string())), Some(5));
    assert!(s.lookup(&"y".to_string()).is_none());
}

#[test]
fn lookup_does_not_cross_into_an_outer_call() {
    let mut s = Stack::new();
    s.push_call();
    s.declare("x".to_string(), Value::Int(1));
    s.push_call();
    assert!(s.lookup(&"x".to_string()).is_none());
    s.declare("x".to_string(), Value::Int(9));
    s.pop_call();
    assert_eq!(s.depth(), 1);
    assert_eq!(as_int(&s.lookup(&"x".to_string())), Some(1));
    s.pop_call();
    s.pop_call();
    assert_eq!(s.depth(), 0);
}

#[test]
fn classes_are_found_by_name_and_the_later_counts() {
    let mut o = ObjSys::new();
    assert!(o.get_class(&"A".to_string()).is_none());
    let mut a = o.new_class("A".to_string());
    a.add_field(&"int".to_string(), &"n".to_string(), Node::new(NodeType::Int(1)));
    a.add_method(Function {
        name: "get".to_string(),
        file: "a.dart".to_string(),
        body: Node::new(NodeType::Block),
        params: vec![ParamObj { typ: "var".to_string(), name: "p".to_string(), fieldinit: false }],
    });
    a.add_method(Function {
        name: "get".to_string(),
        file: "b.dart".to_string(),
        body: Node::new(NodeType::Block),
        params: Vec::new(),
    });
    assert_eq!(a.get_method(&"get".to_string()).unwrap().file, "b.dart");
    assert!(a.get_method(&"set".to_string()).is_none());
    o.register_class(a);
    o.register_class(Class::new("A".to_string()));
    assert_eq!(o.classes.len(), 2);
    assert!(o.get_class(&"A".to_string()).unwrap().fields.is_empty());
}

#[test]
fn instances_are_found_by_id() {
    let mut o = ObjSys::new();
    assert!(o.add_instance("A".to_string(), "id1".to_string()));
    assert!(!o.add_instance("B".to_string(), "id1".to_string()));
    assert!(o.add_instance("B".to_string(), "id2".to_string()));
    assert_eq!(o.find_instance(&"id2".to_string()), Some(1));
    assert_eq!(o.find_instance(&"id3".to_string()), None);
    assert_eq!(o.class_of(&"id1".to_string()), Some("A".to_string()));
    assert_eq!(o.class_of(&"id9".to_string()), None);
    assert!(o.get_field(&"id1".to_string(), &"n".to_string()).is_none());
    assert!(o.set_field(&"id1".to_string(), "n".to_string(), Value::Int(1)));
    assert!(o.set_field(&"id1".to_string(), "m".to_string(), Value::Int(2)));
    assert!(o.set_field(&"id1".to_string(), "n".to_string(), Value::Int(3)));
    assert!(!o.set_field(&"id9".to_string(), "n".to_string(), Value::Int(3)));
    assert_eq!(as_int(&o.get_field(&"id1".to_string(), &"n".to_string())), Some(3));
    assert_eq!(as_int(&o.get_field(&"id1".to_string(), &"m".to_string())), Some(2));
    assert_eq!(o.instances[0].fields.len(), 2);
    assert!(o.get_field(&"id2".to_string(), &"n".to_string()).is_none());
}
