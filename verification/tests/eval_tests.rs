use minidart::context::Ctx;
use minidart::evaluator::{
    construct_with, display, draw_ids, eval, run_main, values_equal, Flow, Runtime,
};
use minidart::lexer::lex;
use minidart::parser::parse;
use minidart::linker::{filecurse, LinkError, LookTable, MemoEntry, SourceFile};
use minidart::node::{Node, NodeType};
use minidart::objsys::ObjSys;
use minidart::ops::EvalError;
use minidart::stack::Stack;
use minidart::value::{Floats, Value};

struct Ieee;

impl Floats for Ieee {
    fn parse(&self, literal: &str) -> u64 {
        literal.parse::<f64>().unwrap_or(f64::NAN).to_bits()
    }
    fn from_int(&self, i: i64) -> u64 {
        (i as f64).to_bits()
    }
    fn add(&self, a: u64, b: u64) -> u64 {
        (f64::from_bits(a) + f64::from_bits(b)).to_bits()
    }
    fn sub(&self, a: u64, b: u64) -> u64 {
        (f64::from_bits(a) - f64::from_bits(b)).to_bits()
    }
    fn mul(&self, a: u64, b: u64) -> u64 {
        (f64::from_bits(a) * f64::from_bits(b)).to_bits()
    }
    fn div(&self, a: u64, b: u64) -> u64 {
        (f64::from_bits(a) / f64::from_bits(b)).to_bits()
    }
    fn neg(&self, a: u64) -> u64 {
        (-f64::from_bits(a)).to_bits()
    }
    fn less(&self, a: u64, b: u64) -> bool {
        f64::from_bits(a) < f64::from_bits(b)
    }
    fn equal(&self, a: u64, b: u64) -> bool {
        f64::from_bits(a) == f64::from_bits(b)
    }
    fn show(&self, a: u64) -> String {
        format!("{:?}", f64::from_bits(a))
    }
}

fn run_files(files: &[(&str, &str)], fuel: u64) -> Result<Vec<String>, String> {
    let sources: Vec<SourceFile> = files
        .iter()
        .map(|(p, t)| SourceFile { path: p.to_string(), text: t.to_string() })
        .collect();
    let root = files[0].0.to_string();
    let mut memo: Vec<MemoEntry> = Vec::new();
    let mut tables: Vec<LookTable> = Vec::new();
    let mut globals: Vec<Node> = Vec::new();
    let mut objsys = ObjSys::new();
    let mut ctx = Ctx::new(root.clone(), false);
    match filecurse(root.clone(), &sources, &mut memo, &mut tables, &mut globals, &mut objsys, &mut ctx) {
        Ok(()) => {}
        Err(LinkError::Missing(p)) => return Err(format!("missing {}", p)),
        Err(LinkError::Rejected(f, e)) => {
            return Err(format!("{}:{}:{}: Error: {}", f, e.line, e.column, e.message))
        }
    }
    let mut rt = Runtime { store: Stack::new(), objsys, ctx, output: Vec::new(), fuel, ids: draw_ids(64) };
    match run_main(&root, &tables, &globals, &mut rt, &Ieee) {
        Ok(()) => {
            assert_eq!(rt.store.depth(), 0);
            Ok(rt.output)
        }
        Err(e) => Err(match e {
            EvalError::Resolution(m) => format!("resolution: {}", m),
            EvalError::Type(m) => format!("type: {}", m),
            EvalError::Arithmetic(m) => format!("arithmetic: {}", m),
            EvalError::Exhausted => "exhausted".to_string(),
            EvalError::OutOfIds => "out of ids".to_string(),
            EvalError::Internal(m) => format!("internal: {}", m),
        }),
    }
}

fn run(src: &str) -> Result<Vec<String>, String> {
    run_files(&[("main.dart", src)], 1_000_000)
}

fn lines(v: &[&str]) -> Result<Vec<String>, String> {
    Ok(v.iter().map(|s| s.to_string()).collect())
}

#[test]
fn prints_sum_and_product() {
    assert_eq!(run("void main() { print(1 + 2 * 3); }"), lines(&["7"]));
}

#[test]
fn while_counts_down() {
    assert_eq!(
        run("void main() { int x = 10; while (x > 0) { x = x - 1; } print(x); }"),
        lines(&["0"])
    );
}

#[test]
fn class_with_field_initialising_constructor() {
    assert_eq!(
        run("class P { int n; P(this.n); int get() { return n; } } void main() { P p = P(42); print(p.get()); }"),
        lines(&["42"])
    );
}

#[test]
fn for_sums_its_counter() {
    assert_eq!(
        run("void main() { int i = 0; for (int k = 0; k < 5; k = k + 1) { i = i + k; } print(i); }"),
        lines(&["10"])
    );
}

#[test]
fn later_import_overrides_own_function() {
    let a = "import \"b.dart\"; int f() { return 1; } void main() { print(f()); }";
    let b = "int f() { return 2; }";
    assert_eq!(run_files(&[("a.dart", a), ("b.dart", b)], 10_000), lines(&["2"]));
}

#[test]
fn later_import_overrides_earlier_import() {
    let a = "import \"b.dart\"; import \"c.dart\"; void main() { print(f()); print(g()); }";
    let b = "int f() { return 2; } int g() { return 20; }";
    let c = "int f() { return 3; }";
    assert_eq!(
        run_files(&[("a.dart", a), ("b.dart", b), ("c.dart", c)], 10_000),
        lines(&["3", "20"])
    );
}

#[test]
fn import_cycles_end() {
    let a = "import \"b.dart\"; void main() { print(g()); }";
    let b = "import \"a.dart\"; int g() { return 5; }";
    assert_eq!(run_files(&[("a.dart", a), ("b.dart", b)], 10_000), lines(&["5"]));
}

#[test]
fn missing_import_is_named() {
    let a = "import \"b.dart\"; void main() { }";
    assert_eq!(run_files(&[("a.dart", a)], 10_000), Err("missing b.dart".to_string()));
}

#[test]
fn empty_program_has_no_main() {
    assert_eq!(run(""), Err("resolution: No 'main' method found.".to_string()));
}

#[test]
fn division_by_zero_is_an_arithmetic_error() {
    assert_eq!(
        run("void main() { print(1 / 0); }"),
        Err("arithmetic: Integer division by zero.".to_string())
    );
}

#[test]
fn integer_division_rounds_toward_zero() {
    assert_eq!(
        run("void main() { print(7 / 2); print(-7 / 2); print(7 / -2); print(100 / 5 / 2); print(10 - 4 - 3); }"),
        lines(&["3", "-3", "-3", "10", "3"])
    );
}

#[test]
fn overflow_is_an_arithmetic_error() {
    assert_eq!(
        run("void main() { print(9223372036854775807 + 1); }"),
        Err("arithmetic: Integer overflow in '+'.".to_string())
    );
}

#[test]
fn if_without_else() {
    assert_eq!(
        run("void main() { int x = 1; if (x == 2) { print(1); } print(2); if (x == 1) { print(3); } }"),
        lines(&["2", "3"])
    );
}

#[test]
fn else_if_chain() {
    let src = "void pick(n) { if (n < 0) { print(\"neg\"); } else if (n == 0) { print(\"zero\"); } else { print(\"pos\"); } } void main() { pick(-1); pick(0); pick(1); }";
    assert_eq!(run(src), lines(&["neg", "zero", "pos"]));
}

#[test]
fn nested_string_interpolation() {
    assert_eq!(run("void main() { print(\"a${\"b${1+1}c\"}d\"); }"), lines(&["ab2cd"]));
}

#[test]
fn strings_and_lists() {
    assert_eq!(
        run("void main() { var xs = [1, 2] + [3]; print(xs); print(\"a\" + \"b\"); print([] == []); print(true && !false); }"),
        lines(&["[1, 2, 3]", "ab", "true", "true"])
    );
}

#[test]
fn doubles_go_through_the_backend() {
    assert_eq!(
        run("void main() { print(1.5 + 2); print(1 / 2.0); print(1.5 < 2); print(2 == 2.0); }"),
        lines(&["3.5", "0.5", "true", "true"])
    );
}

#[test]
fn logical_operators_short_circuit() {
    assert_eq!(
        run("bool boom() { print(\"boom\"); return true; } void main() { print(false && boom()); print(true || boom()); print(true && boom()); }"),
        lines(&["false", "true", "boom", "true"])
    );
}

#[test]
fn conditions_must_be_truth_values() {
    assert_eq!(
        run("void main() { if (1) { } }"),
        Err("type: A condition must be a truth value.".to_string())
    );
}

#[test]
fn unknown_name_is_a_resolution_error() {
    assert_eq!(run("void main() { print(x); }"), Err("resolution: Unknown name: x".to_string()));
    assert_eq!(run("void main() { f(); }"), Err("resolution: Unknown function: f".to_string()));
}

#[test]
fn increments() {
    assert_eq!(
        run("void main() { int i = 1; print(i++); print(i); print(++i); print(i--); print(--i); }"),
        lines(&["1", "2", "3", "3", "1"])
    );
}

#[test]
fn do_while_runs_the_body_first() {
    assert_eq!(
        run("void main() { int i = 5; do { print(i); i = i + 1; } while (i < 3) print(i); }"),
        lines(&["5", "6"])
    );
}

#[test]
fn scopes_end_with_their_blocks() {
    assert_eq!(
        run("void main() { int x = 1; if (true) { int y = 2; x = x + y; } print(x); print(y); }"),
        Err("resolution: Unknown name: y".to_string())
    );
}

#[test]
fn lookup_does_not_cross_calls() {
    assert_eq!(
        run("void f() { print(x); } void main() { int x = 1; f(); }"),
        Err("resolution: Unknown name: x".to_string())
    );
}

#[test]
fn return_unwinds_one_call() {
    assert_eq!(
        run("int f() { while (true) { if (true) { return 7; } } } void main() { print(f()); print(1); }"),
        lines(&["7", "1"])
    );
}

#[test]
fn recursion() {
    assert_eq!(
        run("int fact(n) { if (n < 2) { return 1; } return n * fact(n - 1); } void main() { print(fact(10)); }"),
        lines(&["3628800"])
    );
}

#[test]
fn local_functions() {
    assert_eq!(
        run("void main() { int twice(n) { return n + n; } print(twice(4)); }"),
        lines(&["8"])
    );
}

#[test]
fn instances_are_held_by_reference() {
    let src = "class C { int n = 1; void bump() { n = n + 1; } int get() { return n; } } void main() { var a = C(); var b = a; b.bump(); print(a.get()); print(a.n); print(a == b); print(a == C()); print(a); }";
    assert_eq!(run(src), lines(&["2", "2", "true", "false", "Instance of 'C'"]));
}

#[test]
fn field_defaults_are_evaluated_for_every_instance() {
    let src = "class C { int n = 2 * 3; C(); } void main() { print(C().n); }";
    assert_eq!(run(src), lines(&["6"]));
}

#[test]
fn endless_loop_runs_out_of_steps() {
    assert_eq!(
        run_files(&[("main.dart", "void main() { while (true) { } }")], 1000),
        Err("exhausted".to_string())
    );
}

#[test]
fn unterminated_string_is_reported_at_its_opening_quote() {
    assert_eq!(
        run("void main() {\n  print(\"abc); }"),
        Err("main.dart:2:9: Error: Unterminated string.".to_string())
    );
}

#[test]
fn unknown_character_is_a_lex_error() {
    assert_eq!(
        run("void main() { # }"),
        Err("main.dart:1:15: Error: Unexpected character.".to_string())
    );
}

#[test]
fn values_print_as_the_language_writes_them() {
    let mut objsys = ObjSys::new();
    objsys.add_instance("P".to_string(), "id1".to_string());
    let show = |v: Value| display(&v, &objsys, &Ieee);
    assert_eq!(show(Value::Int(-12)), "-12");
    assert_eq!(show(Value::Bool(false)), "false");
    assert_eq!(show(Value::Str("a b".to_string())), "a b");
    assert_eq!(show(Value::Null), "null");
    assert_eq!(show(Value::Class("P".to_string())), "P");
    assert_eq!(show(Value::Reference("id1".to_string())), "Instance of 'P'");
    assert_eq!(show(Value::Reference("nobody".to_string())), "Instance of an unknown class");
    assert_eq!(show(Value::Double(1.5f64.to_bits())), "1.5");
    assert_eq!(show(Value::List(Vec::new())), "[]");
    assert_eq!(
        show(Value::List(vec![Value::Int(1), Value::List(vec![Value::Str("x".to_string())]), Value::Null])),
        "[1, [x], null]"
    );
}

#[test]
fn equality_is_by_value_and_by_id() {
    let eq = |a: Value, b: Value| values_equal(&a, &b, &Ieee);
    assert!(eq(Value::Int(3), Value::Int(3)));
    assert!(!eq(Value::Int(3), Value::Int(4)));
    assert!(eq(Value::Int(3), Value::Double(3.0f64.to_bits())));
    assert!(!eq(Value::Int(1), Value::Bool(true)));
    assert!(eq(Value::Str("a".to_string()), Value::Str("a".to_string())));
    assert!(!eq(Value::Str("a".to_string()), Value::Str("b".to_string())));
    assert!(eq(Value::Null, Value::Null));
    assert!(eq(Value::Reference("i".to_string()), Value::Reference("i".to_string())));
    assert!(!eq(Value::Reference("i".to_string()), Value::Reference("j".to_string())));
    assert!(eq(
        Value::List(vec![Value::Int(1), Value::Int(2)]),
        Value::List(vec![Value::Int(1), Value::Int(2)])
    ));
    assert!(!eq(Value::List(vec![Value::Int(1)]), Value::List(vec![Value::Int(1), Value::Int(2)])));
    assert!(!eq(Value::List(vec![Value::Int(1)]), Value::List(vec![Value::Int(2)])));
}

#[test]
fn every_node_costs_one_step() {
    let tree = Node::binary(
        NodeType::Sub,
        Node::binary(NodeType::Sub, Node::new(NodeType::Int(7)), Node::new(NodeType::Int(2))),
        Node::new(NodeType::Int(1)),
    );
    let mut rt = Runtime {
        store: Stack::new(),
        objsys: ObjSys::new(),
        ctx: Ctx::new("m".to_string(), false),
        output: Vec::new(),
        fuel: 8,
        ids: Vec::new(),
    };
    match eval(&tree, &Vec::new(), &Vec::new(), &mut rt, &Ieee) {
        Ok(Flow::Normal(Value::Int(4))) => {}
        other => panic!("{:?}", other),
    }
    assert_eq!(rt.fuel, 3);
    assert!(matches!(
        eval(&tree, &Vec::new(), &Vec::new(), &mut rt, &Ieee),
        Err(EvalError::Exhausted)
    ));
}

#[test]
fn assignment_outside_any_call_is_refused() {
    let tree = Node::binary(
        NodeType::Assign,
        Node::new(NodeType::Name("x".to_string())),
        Node::new(NodeType::Int(1)),
    );
    let mut rt = Runtime {
        store: Stack::new(),
        objsys: ObjSys::new(),
        ctx: Ctx::new("m".to_string(), false),
        output: Vec::new(),
        fuel: 8,
        ids: Vec::new(),
    };
    assert!(matches!(
        eval(&tree, &Vec::new(), &Vec::new(), &mut rt, &Ieee),
        Err(EvalError::Internal(_))
    ));
}

#[test]
fn calls_resolve_from_the_file_of_the_callee() {
    let a = "import \"b.dart\"; int h() { return 1; } void main() { print(g()); }";
    let b = "import \"c.dart\"; int g() { return h(); }";
    let c = "int h() { return 3; }";
    assert_eq!(
        run_files(&[("a.dart", a), ("b.dart", b), ("c.dart", c)], 10_000),
        lines(&["3"])
    );
}

#[test]
fn a_call_needs_an_argument_for_every_parameter() {
    assert_eq!(
        run("int f(a, b) { return a + b; } void main() { print(f(1, 2)); print(f(1)); }"),
        Err("type: A call must give one argument for every parameter.".to_string())
    );
}

#[test]
fn methods_see_their_parameters_and_fields() {
    let src = "class Acc { int total = 0; Acc(start) { total = start; } int add(n) { total = total + n; return total; } } void main() { var a = Acc(10); print(a.add(5)); print(a.add(7)); print(a.total); }";
    assert_eq!(run(src), lines(&["15", "22", "22"]));
}

#[test]
fn an_instance_is_created_under_the_given_id() {
    let src = "class P { int n; int m = 2 + 3; P(this.n, k) { m = m + k; } }";
    let mut reader = lex(src).unwrap();
    let ctx = Ctx::new("p.dart".to_string(), false);
    let mut globals: Vec<Node> = Vec::new();
    let mut objsys = ObjSys::new();
    parse(&mut reader, &mut globals, &mut objsys, &ctx).unwrap();
    let mut rt = Runtime { store: Stack::new(), objsys, ctx, output: Vec::new(), fuel: 100, ids: Vec::new() };
    let made = construct_with(
        "id-1".to_string(),
        &globals[0],
        &"P".to_string(),
        &"p.dart".to_string(),
        vec![Value::Int(42), Value::Int(10)],
        &Vec::new(),
        &globals,
        &mut rt,
        &Ieee,
    );
    assert!(matches!(made, Ok(Value::Reference(ref id)) if id == "id-1"));
    assert_eq!(rt.store.depth(), 0);
    assert_eq!(rt.objsys.instances.len(), 1);
    assert_eq!(rt.objsys.class_of(&"id-1".to_string()), Some("P".to_string()));
    assert!(matches!(rt.objsys.get_field(&"id-1".to_string(), &"n".to_string()), Some(Value::Int(42))));
    assert!(matches!(rt.objsys.get_field(&"id-1".to_string(), &"m".to_string()), Some(Value::Int(15))));
    // The same id again is refused, and so is a class that nothing declares.
    let again = construct_with(
        "id-1".to_string(),
        &globals[0],
        &"P".to_string(),
        &"p.dart".to_string(),
        vec![Value::Int(1), Value::Int(1)],
        &Vec::new(),
        &globals,
        &mut rt,
        &Ieee,
    );
    assert!(matches!(again, Err(EvalError::Internal(_))));
    let unknown = construct_with(
        "id-2".to_string(),
        &globals[0],
        &"Q".to_string(),
        &"p.dart".to_string(),
        Vec::new(),
        &Vec::new(),
        &globals,
        &mut rt,
        &Ieee,
    );
    assert!(matches!(unknown, Err(EvalError::Resolution(_))));
    assert_eq!(rt.objsys.instances.len(), 1);
}

#[test]
fn fresh_ids_differ() {
    let src = "class C { } void main() { var a = C(); var b = C(); print(a == b); print(a == a); }";
    assert_eq!(run(src), lines(&["false", "true"]));
}

#[test]
fn instances_take_the_ids_that_wait_last_first() {
    let sources = vec![SourceFile {
        path: "m".to_string(),
        text: "class P { int n; P(this.n); } void main() { P a = P(1); P b = P(2); print(a == b); P c = P(3); print(3); }"
            .to_string(),
    }];
    let root = "m".to_string();
    let mut memo: Vec<MemoEntry> = Vec::new();
    let mut tables: Vec<LookTable> = Vec::new();
    let mut globals: Vec<Node> = Vec::new();
    let mut objsys = ObjSys::new();
    let mut ctx = Ctx::new(root.clone(), false);
    assert!(filecurse(root.clone(), &sources, &mut memo, &mut tables, &mut globals, &mut objsys, &mut ctx).is_ok());
    let mut rt = Runtime {
        store: Stack::new(),
        objsys,
        ctx,
        output: Vec::new(),
        fuel: 10_000,
        ids: vec!["second".to_string(), "first".to_string()],
    };
    // The third instance finds no id.
    match run_main(&root, &tables, &globals, &mut rt, &Ieee) {
        Err(e) => {
            assert!(matches!(e, EvalError::OutOfIds));
            assert_eq!(e.message(), "No id is left for a new instance.");
        }
        Ok(()) => panic!(),
    }
    assert_eq!(rt.output, vec!["false".to_string()]);
    assert!(rt.ids.is_empty());
    assert_eq!(rt.objsys.instances.len(), 2);
    assert_eq!(rt.objsys.instances[0].id, "first");
    assert_eq!(rt.objsys.instances[1].id, "second");
}

#[test]
fn drawn_ids_differ() {
    let ids = draw_ids(50);
    assert_eq!(ids.len(), 50);
    for (i, a) in ids.iter().enumerate() {
        assert_eq!(a.len(), 22);
        for b in &ids[..i] {
            assert!(a != b);
        }
    }
    assert!(draw_ids(0).is_empty());
}

#[test]
fn a_failed_run_keeps_the_lines_printed_before() {
    let sources = vec![SourceFile {
        path: "m".to_string(),
        text: "void f() { print(2); print(nowhere); } void main() { print(1); f(); print(3); }".to_string(),
    }];
    let root = "m".to_string();
    let mut memo: Vec<MemoEntry> = Vec::new();
    let mut tables: Vec<LookTable> = Vec::new();
    let mut globals: Vec<Node> = Vec::new();
    let mut objsys = ObjSys::new();
    let mut ctx = Ctx::new(root.clone(), false);
    assert!(filecurse(root.clone(), &sources, &mut memo, &mut tables, &mut globals, &mut objsys, &mut ctx).is_ok());
    let mut rt = Runtime {
        store: Stack::new(),
        objsys,
        ctx,
        output: vec!["earlier".to_string()],
        fuel: 10_000,
        ids: Vec::new(),
    };
    match run_main(&root, &tables, &globals, &mut rt, &Ieee) {
        Err(EvalError::Resolution(_)) => {}
        _ => panic!(),
    }
    assert_eq!(rt.output, vec!["earlier".to_string(), "1".to_string(), "2".to_string()]);
}
