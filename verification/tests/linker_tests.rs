use minidart::context::Ctx;
use minidart::evaluator::evaluate;
use minidart::linker::{
    filecurse, find_memo, find_source, find_table, lookup, LinkError, LookEntry, LookTable,
    MemoEntry, SourceFile,
};
use minidart::node::Node;
use minidart::objsys::ObjSys;
use minidart::value::Floats;

struct NoFloats;

impl Floats for NoFloats {
    fn parse(&self, _: &str) -> u64 {
        0
    }
    fn from_int(&self, _: i64) -> u64 {
        0
    }
    fn add(&self, _: u64, _: u64) -> u64 {
        0
    }
    fn sub(&self, _: u64, _: u64) -> u64 {
        0
    }
    fn mul(&self, _: u64, _: u64) -> u64 {
        0
    }
    fn div(&self, _: u64, _: u64) -> u64 {
        0
    }
    fn neg(&self, _: u64) -> u64 {
        0
    }
    fn less(&self, _: u64, _: u64) -> bool {
        false
    }
    fn equal(&self, _: u64, _: u64) -> bool {
        false
    }
    fn show(&self, _: u64) -> String {
        String::new()
    }
}

fn sources(files: &[(&str, &str)]) -> Vec<SourceFile> {
    files.iter().map(|(p, t)| SourceFile { path: p.to_string(), text: t.to_string() }).collect()
}

struct Linked {
    memo: Vec<MemoEntry>,
    tables: Vec<LookTable>,
    globals: Vec<Node>,
    classes: usize,
}

fn link(root: &str, files: &[(&str, &str)]) -> Result<Linked, LinkError> {
    let src = sources(files);
    let mut memo = Vec::new();
    let mut tables = Vec::new();
    let mut globals = Vec::new();
    let mut objsys = ObjSys::new();
    let mut ctx = Ctx::new(root.to_string(), true);
    filecurse(root.to_string(), &src, &mut memo, &mut tables, &mut globals, &mut objsys, &mut ctx)?;
    assert!(ctx.debug);
    Ok(Linked { memo, tables, globals, classes: objsys.classes.len() })
}

fn ranges(l: &Linked) -> Vec<(String, usize, usize)> {
    l.memo.iter().map(|m| (m.path.clone(), m.start, m.end)).collect()
}

fn names(t: &LookTable) -> Vec<(String, usize)> {
    t.names.iter().map(|e| (e.name.clone(), e.index)).collect()
}

fn pairs(v: &[(&str, usize)]) -> Vec<(String, usize)> {
    v.iter().map(|(n, i)| (n.to_string(), *i)).collect()
}

#[test]
fn a_file_without_imports() {
    let l = link("a", &[("a", "void f() { } class C { } void main() { }")]).unwrap();
    assert_eq!(ranges(&l), vec![("a".to_string(), 0, 3)]);
    assert_eq!(l.globals.len(), 3);
    assert_eq!(l.classes, 1);
    assert_eq!(l.tables.len(), 1);
    assert_eq!(l.tables[0].path, "a");
    assert_eq!(names(&l.tables[0]), pairs(&[("f", 0), ("C", 1), ("main", 2)]));
}

#[test]
fn imports_are_visited_depth_first_and_merged_in_order() {
    let l = link(
        "a",
        &[
            ("c", "void h() { }"),
            ("a", "import \"b\"; import \"c\"; void f() { } void main() { }"),
            ("b", "import \"c\"; void f() { } void g() { }"),
        ],
    )
    .unwrap();
    assert_eq!(
        ranges(&l),
        vec![("a".to_string(), 0, 2), ("b".to_string(), 2, 4), ("c".to_string(), 4, 5)]
    );
    // Tables are finished innermost first.
    let order: Vec<&str> = l.tables.iter().map(|t| t.path.as_str()).collect();
    assert_eq!(order, vec!["c", "b", "a"]);
    let a = &l.tables[find_table(&l.tables, &"a".to_string()).unwrap()];
    assert_eq!(names(a), pairs(&[("f", 0), ("main", 1), ("f", 2), ("g", 3), ("h", 4)]));
    let b = &l.tables[find_table(&l.tables, &"b".to_string()).unwrap()];
    assert_eq!(names(b), pairs(&[("f", 2), ("g", 3), ("h", 4)]));
    // The later merge decides: the import's `f`, not the file's own.
    assert_eq!(lookup(a, &"f".to_string()), Some(2));
    assert_eq!(lookup(a, &"main".to_string()), Some(1));
    assert_eq!(lookup(a, &"h".to_string()), Some(4));
    assert_eq!(lookup(a, &"nothing".to_string()), None);
    assert_eq!(lookup(b, &"main".to_string()), None);
}

#[test]
fn a_later_entry_of_a_table_counts() {
    let t = LookTable {
        path: "t".to_string(),
        names: vec![
            LookEntry { name: "f".to_string(), index: 1 },
            LookEntry { name: "g".to_string(), index: 2 },
            LookEntry { name: "f".to_string(), index: 3 },
        ],
    };
    assert_eq!(lookup(&t, &"f".to_string()), Some(3));
    assert_eq!(lookup(&t, &"g".to_string()), Some(2));
    assert_eq!(lookup(&t, &"h".to_string()), None);
}

#[test]
fn cycles_are_broken_by_the_memo() {
    let l = link("a", &[("a", "import \"b\"; void f() { }"), ("b", "import \"a\"; void g() { }")])
        .unwrap();
    assert_eq!(ranges(&l), vec![("a".to_string(), 0, 1), ("b".to_string(), 1, 2)]);
    let b = &l.tables[find_table(&l.tables, &"b".to_string()).unwrap()];
    assert_eq!(names(b), pairs(&[("g", 1), ("f", 0)]));
    let a = &l.tables[find_table(&l.tables, &"a".to_string()).unwrap()];
    assert_eq!(names(a), pairs(&[("f", 0), ("g", 1)]));
    // A file that imports itself.
    let l = link("s", &[("s", "import \"s\"; void f() { }")]).unwrap();
    assert_eq!(ranges(&l), vec![("s".to_string(), 0, 1)]);
    assert_eq!(names(&l.tables[0]), pairs(&[("f", 0), ("f", 0)]));
}

#[test]
fn a_visited_file_is_left_alone() {
    let src = sources(&[("a", "void f() { }")]);
    let mut memo = Vec::new();
    let mut tables = Vec::new();
    let mut globals = Vec::new();
    let mut objsys = ObjSys::new();
    let mut ctx = Ctx::new("a".to_string(), false);
    for _ in 0..2 {
        filecurse("a".to_string(), &src, &mut memo, &mut tables, &mut globals, &mut objsys, &mut ctx)
            .unwrap();
        assert_eq!((memo.len(), tables.len(), globals.len()), (1, 1, 1));
    }
    assert_eq!(find_memo(&memo, &"a".to_string()), Some(0));
    assert_eq!(find_memo(&memo, &"b".to_string()), None);
    assert_eq!(find_source(&src, &"a".to_string()), Some(0));
    assert_eq!(find_source(&src, &"b".to_string()), None);
}

#[test]
fn missing_and_rejected_files_are_named() {
    match link("a", &[("b", "")]) {
        Err(LinkError::Missing(p)) => assert_eq!(p, "a"),
        _ => panic!(),
    }
    match link("a", &[("a", "import \"b\"; import \"c\";"), ("b", "")]) {
        Err(LinkError::Missing(p)) => assert_eq!(p, "c"),
        _ => panic!(),
    }
    match link("a", &[("a", "import \"b\";"), ("b", "void f( { }")]) {
        Err(LinkError::Rejected(f, e)) => {
            assert_eq!(f, "b");
            assert_eq!(
                (e.message.as_str(), e.line, e.column),
                ("Unexpected token when reading parameters.", 1, 9)
            );
        }
        _ => panic!(),
    }
    match link("a", &[("a", "void f() { \"abc }")]) {
        Err(LinkError::Rejected(f, e)) => {
            assert_eq!(f, "a");
            assert_eq!((e.message.as_str(), e.line, e.column), ("Unterminated string.", 1, 12));
        }
        _ => panic!(),
    }
}

#[test]
fn evaluate_links_and_runs() {
    let src = sources(&[("a", "import \"b\"; void main() { print(g() + 1); }"), ("b", "int g() { return 41; }")]);
    let out = evaluate("a".to_string(), &src, false, 10_000, &NoFloats).unwrap();
    assert!(out.error.is_none());
    assert_eq!(out.output, vec!["42".to_string()]);
}

#[test]
fn evaluate_without_main() {
    let src = sources(&[("a", "import \"b\"; void f() { }"), ("b", "void g() { }")]);
    let out = evaluate("a".to_string(), &src, false, 10_000, &NoFloats).unwrap();
    assert!(out.output.is_empty());
    assert_eq!(out.error.unwrap().message(), "No 'main' method found.");
    // `main` of an import is what the root can call.
    let src = sources(&[("a", "import \"b\";"), ("b", "void main() { print(1); }")]);
    let out = evaluate("a".to_string(), &src, false, 10_000, &NoFloats).unwrap();
    assert_eq!(out.output, vec!["1".to_string()]);
}

#[test]
fn evaluate_keeps_the_output_before_an_error() {
    let src = sources(&[("a", "void main() { print(1); print(1 / 0); print(2); }")]);
    let out = evaluate("a".to_string(), &src, false, 10_000, &NoFloats).unwrap();
    assert_eq!(out.output, vec!["1".to_string()]);
    assert_eq!(out.error.unwrap().message(), "Integer division by zero.");
    match evaluate("a".to_string(), &Vec::new(), false, 10, &NoFloats) {
        Err(LinkError::Missing(p)) => assert_eq!(p, "a"),
        _ => panic!(),
    }
}

#[test]
fn an_import_that_redefines_a_function() {
    let l = link(
        "a.dart",
        &[
            ("a.dart", "import \"b.dart\"; int f() { return 1; } void main() { print(f()); }"),
            ("b.dart", "int f() { return 2; }"),
        ],
    )
    .unwrap();
    assert_eq!(ranges(&l), vec![("a.dart".to_string(), 0, 2), ("b.dart".to_string(), 2, 3)]);
    assert_eq!(l.globals.len(), 3);
    let a = &l.tables[find_table(&l.tables, &"a.dart".to_string()).unwrap()];
    let b = &l.tables[find_table(&l.tables, &"b.dart".to_string()).unwrap()];
    assert_eq!(lookup(a, &"f".to_string()), Some(2));
    assert_eq!(lookup(a, &"main".to_string()), Some(1));
    assert_eq!(lookup(b, &"f".to_string()), Some(2));
    assert_eq!(lookup(b, &"main".to_string()), None);
    assert_eq!(names(b), pairs(&[("f", 2)]));
}

#[test]
fn every_visited_file_has_its_table_and_the_ranges_adjoin() {
    let l = link(
        "r",
        &[
            ("r", "import \"x\"; import \"y\"; void main() { }"),
            ("x", "import \"y\"; import \"r\"; void a() { } void b() { }"),
            ("y", "import \"x\"; class K { } void c() { }"),
            ("z", "void never() { }"),
        ],
    )
    .unwrap();
    // What the root reaches, each file once, and nothing else.
    let mut visited: Vec<String> = l.memo.iter().map(|m| m.path.clone()).collect();
    visited.sort();
    assert_eq!(visited, vec!["r".to_string(), "x".to_string(), "y".to_string()]);
    let mut tabled: Vec<String> = l.tables.iter().map(|t| t.path.clone()).collect();
    tabled.sort();
    assert_eq!(tabled, visited);
    let mut at = 0;
    for m in &l.memo {
        assert_eq!(m.start, at);
        assert!(m.start <= m.end);
        at = m.end;
    }
    assert_eq!(at, l.globals.len());
}

#[test]
fn a_failed_link_keeps_what_was_linked() {
    let src = sources(&[("a", "import \"b\"; void f() { }"), ("b", "void g() { } void h( { }")]);
    let mut memo = Vec::new();
    let mut tables = Vec::new();
    let mut globals = Vec::new();
    let mut objsys = ObjSys::new();
    let mut ctx = Ctx::new("a".to_string(), false);
    let out = filecurse("a".to_string(), &src, &mut memo, &mut tables, &mut globals, &mut objsys, &mut ctx);
    assert!(matches!(out, Err(LinkError::Rejected(_, _))));
    // The root was entered; the rejected import has left nothing.
    assert_eq!(memo.len(), 1);
    assert_eq!((memo[0].path.as_str(), memo[0].start, memo[0].end), ("a", 0, 1));
    assert_eq!(globals.len(), 1);
    assert!(tables.is_empty());
}

#[test]
fn evaluate_draws_as_many_ids_as_the_program_wants() {
    let src = sources(&[(
        "a",
        "class P { int n; P(this.n); int get() { return n; } } void main() { int i = 0; int s = 0; while (i < 40) { P p = P(i); s = s + p.get(); i = i + 1; } print(s); }",
    )]);
    let out = evaluate("a".to_string(), &src, false, 100_000, &NoFloats).unwrap();
    assert!(out.error.is_none());
    assert_eq!(out.output, vec!["780".to_string()]);
}
