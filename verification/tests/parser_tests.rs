use minidart::context::Ctx;
use minidart::expression::{expression, product, sum};
use minidart::lexer::lex;
use minidart::node::{Node, NodeType};
use minidart::objsys::ObjSys;
use minidart::parser::parse;

fn show(n: &Node) -> String {
    let head = match &n.nodetype {
        NodeType::Int(v) => format!("{}", v),
        NodeType::Double(s) => format!("{}", s),
        NodeType::Bool(b) => format!("{}", b),
        NodeType::Str(s) => format!("{:?}", s),
        NodeType::Name(s) => format!("{}", s),
        NodeType::FunCall(s) => format!("call {}", s),
        NodeType::MethodCall(s, owner, _) => format!("method {} on {}", s, show(owner)),
        NodeType::FunDef(s, _) => format!("fun {}", s),
        NodeType::Constructor(s, _) => format!("ctor {}", s),
        NodeType::TypedVar(t, s) => format!("{} {}", t, s),
        NodeType::ThisFieldInit(s) => format!("this.{}", s),
        other => format!("{:?}", other),
    };
    if n.children.is_empty() {
        head
    } else {
        let kids: Vec<String> = n.children.iter().map(show).collect();
        format!("({} {})", head, kids.join(" "))
    }
}

fn expr(src: &str) -> String {
    let mut reader = lex(src).expect("lexes");
    let ctx = Ctx::new("t.dart".to_string(), false);
    match expression(&mut reader, &ctx) {
        Ok(n) => show(&n),
        Err(e) => format!("error: {}", e.message),
    }
}

fn program(src: &str) -> Result<(Vec<String>, Vec<String>, usize), String> {
    let mut reader = lex(src).map_err(|e| e.message)?;
    let ctx = Ctx::new("t.dart".to_string(), false);
    let mut globals: Vec<Node> = Vec::new();
    let mut objsys = ObjSys::new();
    match parse(&mut reader, &mut globals, &mut objsys, &ctx) {
        Ok(imports) => Ok((imports, globals.iter().map(show).collect(), objsys.classes.len())),
        Err(e) => Err(format!("{}:{}: {}", e.line, e.column, e.message)),
    }
}

#[test]
fn subtraction_groups_from_the_left() {
    assert_eq!(expr("a - b - c"), "(Sub (Sub a b) c)");
}

#[test]
fn division_groups_from_the_left() {
    assert_eq!(expr("a / b / c"), "(Div (Div a b) c)");
    assert_eq!(expr("a * b / c * d"), "(Mul (Div (Mul a b) c) d)");
}

#[test]
fn product_binds_tighter_than_sum() {
    assert_eq!(expr("1 + 2 * 3"), "(Add 1 (Mul 2 3))");
    assert_eq!(expr("1 * 2 + 3"), "(Add (Mul 1 2) 3)");
    assert_eq!(expr("1 - 2 + 3 - 4"), "(Sub (Add (Sub 1 2) 3) 4)");
}

#[test]
fn logical_tiers_nest_to_the_right() {
    assert_eq!(expr("a || b || c"), "(LogOr a (LogOr b c))");
    assert_eq!(expr("a && b || c"), "(LogOr (LogAnd a b) c)");
    assert_eq!(expr("a | b ^ c & d"), "(BitOr a (BitXor b (BitAnd c d)))");
}

#[test]
fn comparison_takes_one_operator() {
    assert_eq!(expr("a < b + 1"), "(LessThan a (Add b 1))");
    assert_eq!(expr("a == b <= c"), "(Equal a (LessOrEq b c))");
}

#[test]
fn terms() {
    assert_eq!(expr("-x"), "(Sub x)");
    assert_eq!(expr("!done"), "(Not done)");
    assert_eq!(expr("i++"), "(PostIncrement i)");
    assert_eq!(expr("--i"), "(PreDecrement i)");
    assert_eq!(expr("(1 + 2) * 3"), "(Mul (Add 1 2) 3)");
    assert_eq!(expr("[1, 2, 3]"), "(List 1 2 3)");
    assert_eq!(expr("[]"), "List");
    assert_eq!(expr("f(1, g(2))"), "(call f (ArgList 1 (call g ArgList)))".replace("(call g ArgList)", "(call g (ArgList 2))"));
    assert_eq!(expr("1.5"), "1.5");
    assert_eq!(expr("true"), "true");
}

#[test]
fn access_chains() {
    assert_eq!(expr("p.get()"), "(method get on p ArgList)");
    assert_eq!(expr("a.b.c"), "(c (b a))");
    assert_eq!(expr("a.b(1).c"), "(c (method b on a (ArgList 1)))");
}

#[test]
fn string_holes_become_children() {
    assert_eq!(expr("\"a${1 + 1}b\""), "(\"a\\0b\" (Add 1 1))");
    assert_eq!(expr("\"a${\"b${1+1}c\"}d\""), "(\"a\\0d\" (\"b\\0c\" (Add 1 1)))");
}

#[test]
fn expression_errors() {
    assert_eq!(expr("+ 1"), "error: '+' is not a prefix operator.");
    assert_eq!(expr("(1 + 2"), "error: Expected: ')'. Got: 'EOF'.");
    assert_eq!(expr("f(1 2)"), "error: Expected separator in arg list.");
    assert_eq!(expr("f(,)"), "error: Unexpected separator in arg list: ','.");
    assert_eq!(expr("[1 2]"), "error: Unexpected token when parsing list: 2");
    assert_eq!(expr("a."), "error: Expected name after accessor, got: EOF");
    assert_eq!(expr(";"), "error: Unexpected token: ;");
}

#[test]
fn program_with_function() {
    let (imports, globals, classes) = program("void main() { print(1 + 2 * 3); }").unwrap();
    assert!(imports.is_empty());
    assert_eq!(classes, 0);
    assert_eq!(
        globals,
        vec!["(fun main ParamList (Block (call print (ArgList (Add 1 (Mul 2 3))))))".to_string()]
    );
}

#[test]
fn program_with_imports() {
    let (imports, globals, _) =
        program("import \"b.dart\"; import \"c.dart\"; void f() { }").unwrap();
    assert_eq!(imports, vec!["b.dart".to_string(), "c.dart".to_string()]);
    assert_eq!(globals, vec!["(fun f ParamList Block)".to_string()]);
}

#[test]
fn import_after_declaration_is_an_error() {
    let err = program("void f() { } import \"b.dart\";").unwrap_err();
    assert_eq!(err, "1:14: Directives must appear before any declarations.");
}

#[test]
fn statements() {
    let (_, globals, _) = program(
        "void main() { int x = 10; while (x > 0) { x = x - 1; } if (x == 0) { y = 1; } else if (x < 0) { y = 2; } else { y = 3; } do { x++; } while (x < 3) for (int k = 0; k < 5; k = k + 1) { i = i + k; } return x; }",
    )
    .unwrap();
    assert_eq!(
        globals,
        vec![concat_all(&[
            "(fun main ParamList (Block ",
            "(Assign int x 10) ",
            "(While (GreaterThan x 0) (Block (Assign x (Sub x 1)))) ",
            "(Conditional (If (Equal x 0) (Block (Assign y 1))) (ElseIf (LessThan x 0) (Block (Assign y 2))) (Else (Block (Assign y 3)))) ",
            "(DoWhile (Block (PostIncrement x)) (LessThan x 3)) ",
            "(For (Assign int k 0) (LessThan k 5) (Assign k (Add k 1)) (Block (Assign i (Add i k)))) ",
            "(Return x)))",
        ])]
    );
}

fn concat_all(parts: &[&str]) -> String {
    parts.concat()
}

#[test]
fn a_block_ends_at_its_own_brace() {
    let (_, globals, _) =
        program("void main() { if (a) { b; } } void f() { }").unwrap();
    assert_eq!(
        globals,
        vec![
            "(fun main ParamList (Block (Conditional (If a (Block b)))))".to_string(),
            "(fun f ParamList Block)".to_string(),
        ]
    );
}

#[test]
fn a_second_else_is_an_error() {
    let err = program("void main() { if (a) { } else { } else { } }").unwrap_err();
    assert_eq!(err, "1:35: Unexpected token: else");
}

#[test]
fn class_with_constructor_field_and_method() {
    let src = "class P { int n; P(this.n); int get() { return n; } } void main() { P p = P(42); print(p.get()); }";
    let mut reader = lex(src).unwrap();
    let ctx = Ctx::new("t.dart".to_string(), false);
    let mut globals: Vec<Node> = Vec::new();
    let mut objsys = ObjSys::new();
    parse(&mut reader, &mut globals, &mut objsys, &ctx).unwrap();
    let shown: Vec<String> = globals.iter().map(show).collect();
    assert_eq!(
        shown,
        vec![
            "(ctor P (ParamList this.n) Null)".to_string(),
            "(fun main ParamList (Block (Assign P p (call P (ArgList 42))) (call print (ArgList (method get on p ArgList)))))".to_string(),
        ]
    );
    assert_eq!(objsys.classes.len(), 1);
    let class = &objsys.classes[0];
    assert_eq!(class.name, "P");
    assert_eq!(class.fields.len(), 1);
    assert_eq!(class.fields[0].name, "n");
    assert_eq!(class.fields[0].typ, "int");
    assert_eq!(show(&class.fields[0].default), "Null");
    assert_eq!(class.methods.len(), 1);
    assert_eq!(class.methods[0].name, "get");
    assert_eq!(class.methods[0].file, "t.dart");
    assert_eq!(show(&class.methods[0].body), "(Block (Return n))");
}

#[test]
fn class_without_constructor_gets_one() {
    let (_, globals, classes) = program("class A { int x = 1 + 2; }").unwrap();
    assert_eq!(classes, 1);
    assert_eq!(globals, vec!["(ctor A ParamList Null)".to_string()]);
}

#[test]
fn unterminated_constructs_are_errors() {
    assert_eq!(
        program("void main() { print(1);").unwrap_err(),
        "0:0: Unexpected end of tokens in block."
    );
    assert_eq!(program("void main( { }").unwrap_err(), "1:12: Unexpected token when reading parameters.");
    assert_eq!(program("class A { int x }").unwrap_err(), "1:17: Unexpected token when parsing class member: }");
    assert_eq!(program("42").unwrap_err(), "1:1: Expected top level declaration. Got: 42");
}

#[test]
fn index_expressions_are_not_in_the_grammar() {
    let err = program("void main() { var xs = [1,2,3]; print(xs[1]); }").unwrap_err();
    assert_eq!(err, "1:41: Expected separator in arg list.");
}

fn rejected(src: &str) -> String {
    match program(src) {
        Ok(_) => "accepted".to_string(),
        Err(e) => e,
    }
}

#[test]
fn every_malformed_declaration_is_reported_where_it_goes_wrong() {
    let cases: Vec<(&str, &str)> = vec![
        ("void main() { f(1, }", "1:20: Unexpected token: }"),
        ("void main() { f(1", "0:0: Unexpected end of tokens in arg list."),
        ("void main() { ++1; }", "1:17: Invalid operand for increment: 1"),
        ("void main() { --; }", "1:17: Invalid operand for decrement: ;"),
        ("void main() { x = ; }", "1:19: Unexpected token: ;"),
        ("void main() { int x; }", "1:20: Unexpected token: ;"),
        ("void main() { if a { } }", "1:18: Expected: '('. Got: 'a'."),
        ("void main() { if (a { } }", "1:21: Expected: ')'. Got: '{'."),
        ("void main() { if (a) b; }", "1:22: Expected: '{'. Got: 'b'."),
        ("void main() { if (a) { } else b; }", "1:31: Unexpected token after 'else': b"),
        ("void main() { do { } until (a) }", "1:22: Expected: 'while'. Got: 'until'."),
        ("void main() { for (1; a; b) { } }", "1:20: Expected identifier."),
        ("void main() { for (i; a; b) { } }", "1:21: Expected identifier or assignment. Got: ;"),
        ("void main() { for (int i 0; a; b) { } }", "1:26: Expected: '='. Got: '0'."),
        ("void main() { for (i = 0, a; b) { } }", "1:25: Expected: ';'. Got: ','."),
        ("void main() { return; }", "1:21: Unexpected token: ;"),
        ("void main { }", "1:6: A function declaration needs an explicit list of parameters."),
        ("void main(a,,b) { }", "1:13: Unexpected separator in parameter list: ','."),
        ("void main(,a) { }", "1:11: Unexpected separator in parameter list: ','."),
        ("void main(this.a) { }", "1:11: Unexpected token when reading parameters."),
        ("void main(a", "0:0: Unexpected end of tokens in parameter list."),
        ("void main() }", "1:13: Expected: '{'. Got: '}'."),
        ("void () { }", "1:6: Expected function name."),
        ("import b; void main() { }", "1:8: Expected string after 'import'."),
        ("import \"b\" void main() { }", "1:12: Expected: ';'. Got: 'void'."),
        ("class { }", "1:7: Expected class name. Got {"),
        ("class A ( }", "1:9: Expected: '{'. Got: '('."),
        ("class A { A(,x); }", "1:13: Expected an identifier, but got ','."),
        ("class A { A(this x); }", "1:18: Expected: '.'. Got: 'x'."),
        ("class A { A(this.1); }", "1:18: Expected identifier. Got 1"),
        ("class A { A() x }", "1:15: Expected constructor body, got: x"),
        ("class A { 1 }", "1:11: Unexpected first token when parsing class member 1"),
        ("class A { int 1; }", "1:15: Expected class member name, got 1"),
        ("class A { int x = 1 }", "1:21: Expected: ';'. Got: '}'."),
        ("class A { int x", "0:0: Unexpected token when parsing class member: EOF"),
        ("void main() { } }", "1:17: Expected top level declaration. Got: }"),
        ("void main() { a.1; }", "1:17: Expected name after accessor, got: 1"),
        ("void main() { [1, 2; }", "1:20: Unexpected token when parsing list: ;"),
    ];
    for (src, expected) in cases {
        assert_eq!(rejected(src), expected, "{}", src);
    }
}

#[test]
fn a_rejected_file_leaves_the_declarations_as_they_were() {
    let ctx = Ctx::new("t.dart".to_string(), false);
    let mut globals: Vec<Node> = Vec::new();
    let mut objsys = ObjSys::new();
    let mut reader = lex("void f() { } class A { A(); } ").unwrap();
    parse(&mut reader, &mut globals, &mut objsys, &ctx).unwrap();
    assert_eq!(globals.len(), 2);
    assert_eq!(objsys.classes.len(), 1);
    let before: Vec<String> = globals.iter().map(show).collect();
    assert_eq!(before[0], "(fun f ParamList Block)");
    // The second file declares a function and a class before it goes wrong.
    for src in [
        "void g() { } class B { B(); } void h( { }",
        "void g() { } class B { B(); int x }",
        "void g() { } import \"late\";",
        "void g() { } }",
    ] {
        let mut reader = lex(src).unwrap();
        assert!(parse(&mut reader, &mut globals, &mut objsys, &ctx).is_err(), "{}", src);
        let kept: Vec<String> = globals.iter().map(show).collect();
        assert_eq!(kept, before, "{}", src);
        assert_eq!(objsys.classes.len(), 1, "{}", src);
        assert_eq!(objsys.classes[0].name, "A");
    }
}

#[test]
fn the_tiers_of_sums_and_products_read_on_their_own() {
    let ctx = Ctx::new("t.dart".to_string(), false);
    let mut reader = lex("a - b * c - d < e").unwrap();
    let tree = sum(&mut reader, &ctx).unwrap();
    assert_eq!(show(&tree), "(Sub (Sub a (Mul b c)) d)");
    // The sum ends before the comparison.
    assert_eq!(reader.pos(), 7);
    let mut reader = lex("a / b / c + d").unwrap();
    let tree = product(&mut reader, &ctx).unwrap();
    assert_eq!(show(&tree), "(Div (Div a b) c)");
    assert_eq!(reader.pos(), 5);
}
