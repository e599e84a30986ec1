//! The import linker: every file that a root file reaches by `import` is
//! parsed once, its declarations are put into one list of globals, and every
//! file gets a lookup table from names to places in that list.
//!
//! The linker reads no files. It works on a table of sources, and where a
//! file is imported that the table does not hold, it says which; the caller
//! adds that file and links again.

use crate::context::Ctx;
use crate::grammar;
use crate::grammar::Program;
use crate::lexer::{lex, lexed};
use crate::node::{all_declarations, lemma_node_views, node_views, Ast, AstKind, Node, NodeType};
use crate::object::ClassView;
use crate::objsys::ObjSys;
use crate::parser::parse;
use crate::reach::{extends, law_visit_grows, law_visit_needs, reaches};
use crate::text::string_views;
use crate::utils::{Fault, ParseError};
use vstd::pervasive::unreached;
use vstd::prelude::*;

verus! {

/// A source file: the path by which it is imported, and its text.
#[derive(Debug)]
pub struct SourceFile {
    pub path: String,
    pub text: String,
}

/// The mathematical value of a [`SourceFile`].
pub struct SourceView {
    pub path: Seq<char>,
    pub text: Seq<char>,
}

/// Where the declarations of a file stand in the globals: from `start` up
/// to `end`.
#[derive(Debug)]
pub struct MemoEntry {
    pub path: String,
    pub start: usize,
    pub end: usize,
}

/// The mathematical value of a [`MemoEntry`].
pub struct MemoView {
    pub path: Seq<char>,
    pub start: int,
    pub end: int,
}

/// A name and the place of its declaration in the globals.
#[derive(Debug)]
pub struct LookEntry {
    pub name: String,
    pub index: usize,
}

/// The mathematical value of a [`LookEntry`].
pub struct LookView {
    pub name: Seq<char>,
    pub index: int,
}

/// The lookup table of a file: the names that the file can call, in the
/// order in which they were merged. Where a name stands twice, the later
/// entry counts.
#[derive(Debug)]
pub struct LookTable {
    pub path: String,
    pub names: Vec<LookEntry>,
}

/// The mathematical value of a [`LookTable`].
pub struct TableView {
    pub path: Seq<char>,
    pub names: Seq<LookView>,
}

/// Why a program could not be linked.
#[derive(Debug)]
pub enum LinkError {
    /// The file of this path is imported, or is the root, and the table of
    /// sources does not hold it.
    Missing(String),
    /// The file of this path is imported, or is the root, and was rejected
    /// by the lexer or the parser.
    Rejected(String, ParseError),
}

impl View for SourceFile {
    type V = SourceView;

    open spec fn view(&self) -> SourceView {
        SourceView { path: self.path@, text: self.text@ }
    }
}

impl View for MemoEntry {
    type V = MemoView;

    open spec fn view(&self) -> MemoView {
        MemoView { path: self.path@, start: self.start as int, end: self.end as int }
    }
}

impl View for LookEntry {
    type V = LookView;

    open spec fn view(&self) -> LookView {
        LookView { name: self.name@, index: self.index as int }
    }
}

/// The values of a sequence of sources.
pub open spec fn source_views(s: Seq<SourceFile>) -> Seq<SourceView> {
    Seq::new(s.len(), |i: int| s[i]@)
}

/// The values of a memo.
pub open spec fn memo_views(s: Seq<MemoEntry>) -> Seq<MemoView> {
    Seq::new(s.len(), |i: int| s[i]@)
}

/// The values of the entries of a lookup table.
pub open spec fn look_views(s: Seq<LookEntry>) -> Seq<LookView> {
    Seq::new(s.len(), |i: int| s[i]@)
}

impl View for LookTable {
    type V = TableView;

    open spec fn view(&self) -> TableView {
        TableView { path: self.path@, names: look_views(self.names@) }
    }
}

/// The values of a sequence of lookup tables.
pub open spec fn table_views(s: Seq<LookTable>) -> Seq<TableView> {
    Seq::new(s.len(), |i: int| s[i]@)
}

/// The index of the first source of the given path, from `from` on.
pub open spec fn source_at(sources: Seq<SourceView>, path: Seq<char>, from: int) -> Option<int>
    decreases sources.len() - from,
{
    if from < 0 || from >= sources.len() {
        None
    } else if sources[from].path == path {
        Some(from)
    } else {
        source_at(sources, path, from + 1)
    }
}

/// The index of the first memo entry of the given path, from `from` on.
pub open spec fn memo_at(memo: Seq<MemoView>, path: Seq<char>, from: int) -> Option<int>
    decreases memo.len() - from,
{
    if from < 0 || from >= memo.len() {
        None
    } else if memo[from].path == path {
        Some(from)
    } else {
        memo_at(memo, path, from + 1)
    }
}

/// The index of the first lookup table of the given path, from `from` on.
pub open spec fn table_at(tables: Seq<TableView>, path: Seq<char>, from: int) -> Option<int>
    decreases tables.len() - from,
{
    if from < 0 || from >= tables.len() {
        None
    } else if tables[from].path == path {
        Some(from)
    } else {
        table_at(tables, path, from + 1)
    }
}

/// What the file of the given path declares and imports, or why it is
/// rejected; `None` where the sources do not hold the file.
pub open spec fn file_program(sources: Seq<SourceView>, path: Seq<char>) -> Option<
    Result<Program, Fault>,
> {
    match source_at(sources, path, 0) {
        None => None,
        Some(k) => Some(
            match lexed(sources[k].text) {
                Err(f) => Err(f),
                Ok(toks) => grammar::program(toks, 0, path),
            },
        ),
    }
}

/// The paths that the file of the given path imports; none where the file
/// is missing or rejected.
pub open spec fn imports_of(sources: Seq<SourceView>, path: Seq<char>) -> Seq<Seq<char>> {
    match file_program(sources, path) {
        Some(Ok(prog)) => prog.imports,
        _ => Seq::empty(),
    }
}

/// The classes that the file of the given path declares; none where the
/// file is missing or rejected.
pub open spec fn classes_in(sources: Seq<SourceView>, path: Seq<char>) -> Seq<ClassView> {
    match file_program(sources, path) {
        Some(Ok(prog)) => prog.classes,
        _ => Seq::empty(),
    }
}

/// The classes of the files of the memo entries from `from` on, in the
/// order of the entries.
pub open spec fn classes_of(sources: Seq<SourceView>, memo: Seq<MemoView>, from: int) -> Seq<
    ClassView,
>
    decreases memo.len() - from,
{
    if from < 0 || from >= memo.len() {
        Seq::empty()
    } else {
        classes_in(sources, memo[from].path) + classes_of(sources, memo, from + 1)
    }
}

/// The classes of a memo that has grown at its end are those of the memo
/// before, followed by those of the new entries.
pub proof fn lemma_classes_split(
    sources: Seq<SourceView>,
    a: Seq<MemoView>,
    b: Seq<MemoView>,
    from: int,
)
    requires
        a.is_prefix_of(b),
        0 <= from <= a.len(),
    ensures
        classes_of(sources, b, from) == classes_of(sources, a, from) + classes_of(
            sources,
            b,
            a.len() as int,
        ),
    decreases a.len() - from,
{
    if from < a.len() {
        assert(a[from] == b[from]);
        lemma_classes_split(sources, a, b, from + 1);
        assert(classes_of(sources, b, from) =~= classes_of(sources, a, from) + classes_of(
            sources,
            b,
            a.len() as int,
        ));
    } else {
        assert(classes_of(sources, a, from) =~= Seq::<ClassView>::empty());
        assert(classes_of(sources, b, from) =~= classes_of(sources, a, from) + classes_of(
            sources,
            b,
            a.len() as int,
        ));
    }
}

/// The name that a declaration declares.
pub open spec fn decl_name(a: Ast) -> Seq<char> {
    match a.kind {
        AstKind::FunDef(name, _) => name,
        AstKind::Constructor(name, _) => name,
        _ => Seq::empty(),
    }
}

/// The entries for the globals from `start` up to `end`, in order.
pub open spec fn entries_of(globals: Seq<Ast>, start: int, end: int) -> Seq<LookView> {
    Seq::new(
        (end - start) as nat,
        |k: int| LookView { name: decl_name(globals[start + k]), index: start + k },
    )
}

/// The range of the memo entry for `path`; empty where there is none.
pub open spec fn range_of(memo: Seq<MemoView>, path: Seq<char>) -> (int, int) {
    match memo_at(memo, path, 0) {
        Some(i) => (memo[i].start, memo[i].end),
        None => (0, 0),
    }
}

/// The entries for the declarations of the first `n` imports, in the order
/// of the imports.
pub open spec fn import_entries(
    globals: Seq<Ast>,
    memo: Seq<MemoView>,
    imports: Seq<Seq<char>>,
    n: int,
) -> Seq<LookView>
    decreases n,
{
    if n <= 0 {
        Seq::empty()
    } else {
        import_entries(globals, memo, imports, n - 1) + entries_of(
            globals,
            range_of(memo, imports[n - 1]).0,
            range_of(memo, imports[n - 1]).1,
        )
    }
}

/// The place to which a name resolves among the first `upto` entries: that
/// of the last entry with the name.
pub open spec fn resolve(names: Seq<LookView>, name: Seq<char>, upto: int) -> Option<int>
    decreases upto,
{
    if upto <= 0 {
        None
    } else if names[upto - 1].name == name {
        Some(names[upto - 1].index)
    } else {
        resolve(names, name, upto - 1)
    }
}

/// The memo entry stands for a file of the sources that parses, and its
/// range holds what the file declares.
pub open spec fn memo_ok(sources: Seq<SourceView>, globals: Seq<Ast>, m: MemoView) -> bool {
    &&& 0 <= m.start <= m.end <= globals.len()
    &&& file_program(sources, m.path) matches Some(Ok(prog)) && globals.subrange(m.start, m.end)
        == prog.globals
    &&& all_declarations(globals.subrange(m.start, m.end))
}

/// The lookup table is that of a visited file whose imports are all
/// visited, and holds the file's own declarations followed by those of its
/// imports, in the order of the imports.
pub open spec fn table_ok(
    sources: Seq<SourceView>,
    memo: Seq<MemoView>,
    globals: Seq<Ast>,
    t: TableView,
) -> bool {
    &&& memo_at(memo, t.path, 0) is Some
    &&& forall|i: int|
        0 <= i < imports_of(sources, t.path).len() ==> memo_at(
            memo,
            #[trigger] imports_of(sources, t.path)[i],
            0,
        ) is Some
    &&& t.names == entries_of(globals, range_of(memo, t.path).0, range_of(memo, t.path).1)
        + import_entries(
        globals,
        memo,
        imports_of(sources, t.path),
        imports_of(sources, t.path).len() as int,
    )
}

/// The state of a link in progress is sound: every memo entry and every
/// lookup table is as it should be.
pub open spec fn linked(
    sources: Seq<SourceView>,
    memo: Seq<MemoView>,
    tables: Seq<TableView>,
    globals: Seq<Ast>,
) -> bool {
    &&& forall|i: int| 0 <= i < memo.len() ==> memo_ok(sources, globals, #[trigger] memo[i])
    &&& forall|j: int| 0 <= j < tables.len() ==> table_ok(sources, memo, globals, #[trigger] tables[j])
}

/// How many sources wait for their visit: those whose path is not in the
/// memo, among the sources from `from` on.
pub open spec fn unvisited(sources: Seq<SourceView>, memo: Seq<MemoView>, from: int) -> nat
    decreases sources.len() - from,
{
    if from < 0 || from >= sources.len() {
        0
    } else if memo_at(memo, sources[from].path, 0) is None {
        1 + unvisited(sources, memo, from + 1)
    } else {
        unvisited(sources, memo, from + 1)
    }
}

/// What linking has built: the ranges of the visited files, the lookup
/// tables of the files whose visit is complete, the declarations, and the
/// classes.
pub struct Link {
    pub memo: Seq<MemoView>,
    pub tables: Seq<TableView>,
    pub globals: Seq<Ast>,
    pub classes: Seq<ClassView>,
}

/// How a visit ends: with what was built, or at a file that the sources
/// lack, or at a file that is rejected.
pub enum Visit {
    Done(Link),
    Missing(Seq<char>),
    Rejected(Seq<char>, Fault),
}

/// The link before any visit.
pub open spec fn nothing_linked() -> Link {
    Link { memo: Seq::empty(), tables: Seq::empty(), globals: Seq::empty(), classes: Seq::empty() }
}

/// The link after a file has been parsed: its declarations stand behind
/// the globals, its classes behind the classes, and the memo has its range.
pub open spec fn entered(s: Link, path: Seq<char>, prog: Program) -> Link {
    Link {
        memo: s.memo.push(
            MemoView {
                path,
                start: s.globals.len() as int,
                end: (s.globals.len() + prog.globals.len()) as int,
            },
        ),
        tables: s.tables,
        globals: s.globals + prog.globals,
        classes: s.classes + prog.classes,
    }
}

/// The lookup table of a file whose imports are visited: its own
/// declarations, then those of its imports in their order.
pub open spec fn table_for(sources: Seq<SourceView>, s: Link, path: Seq<char>) -> TableView {
    TableView {
        path,
        names: entries_of(s.globals, range_of(s.memo, path).0, range_of(s.memo, path).1)
            + import_entries(
            s.globals,
            s.memo,
            imports_of(sources, path),
            imports_of(sources, path).len() as int,
        ),
    }
}

/// The end of a visit whose imports ended with `v`: the file gets its
/// lookup table.
pub open spec fn completed(sources: Seq<SourceView>, path: Seq<char>, v: Visit) -> Visit {
    match v {
        Visit::Done(s) => Visit::Done(
            Link {
                memo: s.memo,
                tables: s.tables.push(table_for(sources, s, path)),
                globals: s.globals,
                classes: s.classes,
            },
        ),
        other => other,
    }
}

/// The visit of the file `path` in the link `s`. A file that the memo
/// holds is left alone. Else the file must be among the sources and parse;
/// it is entered, its imports are visited in order, and it gets its table.
///
/// The comparison of the counts of waiting sources makes the definition
/// well founded; `law_visit_grows` shows that it never fails.
pub open spec fn visit(sources: Seq<SourceView>, path: Seq<char>, s: Link) -> Visit
    decreases unvisited(sources, s.memo, 0), 0int, 0int,
{
    if memo_at(s.memo, path, 0) is Some {
        Visit::Done(s)
    } else {
        match file_program(sources, path) {
            None => Visit::Missing(path),
            Some(Err(f)) => Visit::Rejected(path, f),
            Some(Ok(prog)) => {
                let s1 = entered(s, path, prog);
                if unvisited(sources, s1.memo, 0) < unvisited(sources, s.memo, 0) {
                    completed(sources, path, visit_imports(sources, prog.imports, 0, s1))
                } else {
                    Visit::Done(s)
                }
            },
        }
    }
}

/// The visits of the imports from the `n`th on, in order; the first that
/// fails ends them.
pub open spec fn visit_imports(
    sources: Seq<SourceView>,
    imports: Seq<Seq<char>>,
    n: int,
    s: Link,
) -> Visit
    decreases unvisited(sources, s.memo, 0), 1int, imports.len() - n,
{
    if n < 0 || n >= imports.len() {
        Visit::Done(s)
    } else {
        match visit(sources, imports[n], s) {
            Visit::Done(s1) => if unvisited(sources, s1.memo, 0) <= unvisited(sources, s.memo, 0) {
                visit_imports(sources, imports, n + 1, s1)
            } else {
                Visit::Done(s1)
            },
            other => other,
        }
    }
}

/// The link that the linker's data stands for.
pub open spec fn link_of(
    memo: Seq<MemoEntry>,
    tables: Seq<LookTable>,
    globals: Seq<Node>,
    objsys: ObjSys,
) -> Link {
    Link {
        memo: memo_views(memo),
        tables: table_views(tables),
        globals: node_views(globals),
        classes: objsys@.classes,
    }
}

/// The linker's result is that of the visit: where the visit is done, the
/// linker succeeds and has built that link; where it ends at a missing or a
/// rejected file, the linker returns that error.
pub open spec fn visit_post(meant: Visit, after: Link, out: Result<(), LinkError>) -> bool {
    match meant {
        Visit::Done(s) => out is Ok && after == s,
        Visit::Missing(p) => out matches Err(LinkError::Missing(q)) && q@ == p,
        Visit::Rejected(p, f) => out matches Err(LinkError::Rejected(q, e)) && q@ == p && e@ == f,
    }
}

/// A memo entry that is found stays found, at the same place, when the
/// memo grows at its end.
pub proof fn lemma_memo_at_stable(a: Seq<MemoView>, b: Seq<MemoView>, path: Seq<char>, from: int)
    requires
        a.is_prefix_of(b),
        0 <= from,
    ensures
        memo_at(a, path, from) is Some ==> memo_at(b, path, from) == memo_at(a, path, from),
        memo_at(a, path, from) matches Some(i) ==> from <= i < a.len() && a[i].path == path,
    decreases a.len() - from,
{
    if from < a.len() {
        assert(a[from] == b[from]);
        if a[from].path != path {
            lemma_memo_at_stable(a, b, path, from + 1);
        }
    }
}

/// A path is found in a memo that holds an entry for it.
pub proof fn lemma_memo_at_finds(memo: Seq<MemoView>, path: Seq<char>, from: int, k: int)
    requires
        0 <= from <= k < memo.len(),
        memo[k].path == path,
    ensures
        memo_at(memo, path, from) is Some,
    decreases memo.len() - from,
{
    if memo[from].path != path {
        lemma_memo_at_finds(memo, path, from + 1, k);
    }
}

/// The entries of a range do not change when the globals grow at their end.
pub proof fn lemma_entries_stable(g: Seq<Ast>, h: Seq<Ast>, start: int, end: int)
    requires
        g.is_prefix_of(h),
        0 <= start <= end <= g.len(),
    ensures
        entries_of(g, start, end) == entries_of(h, start, end),
{
    assert(entries_of(g, start, end) =~= entries_of(h, start, end));
}

/// The entries of visited imports do not change when the memo and the
/// globals grow at their ends.
pub proof fn lemma_import_entries_stable(
    sources: Seq<SourceView>,
    g: Seq<Ast>,
    h: Seq<Ast>,
    a: Seq<MemoView>,
    b: Seq<MemoView>,
    imports: Seq<Seq<char>>,
    n: int,
)
    requires
        g.is_prefix_of(h),
        a.is_prefix_of(b),
        0 <= n <= imports.len(),
        forall|i: int| 0 <= i < a.len() ==> memo_ok(sources, g, #[trigger] a[i]),
        forall|i: int| 0 <= i < n ==> memo_at(a, #[trigger] imports[i], 0) is Some,
    ensures
        import_entries(g, a, imports, n) == import_entries(h, b, imports, n),
    decreases n,
{
    if n > 0 {
        lemma_import_entries_stable(sources, g, h, a, b, imports, n - 1);
        let p = imports[n - 1];
        assert(memo_at(a, p, 0) is Some);
        lemma_memo_at_stable(a, b, p, 0);
        let i = memo_at(a, p, 0)->0;
        assert(memo_ok(sources, g, a[i]));
        assert(a[i] == b[i]);
        lemma_entries_stable(g, h, a[i].start, a[i].end);
    }
}

/// A sound state stays sound when the memo and the globals grow at their
/// ends, provided that the new memo entries are sound.
pub proof fn lemma_linked_grows(
    sources: Seq<SourceView>,
    a: Seq<MemoView>,
    b: Seq<MemoView>,
    tables: Seq<TableView>,
    g: Seq<Ast>,
    h: Seq<Ast>,
)
    requires
        linked(sources, a, tables, g),
        a.is_prefix_of(b),
        g.is_prefix_of(h),
        forall|i: int| a.len() <= i < b.len() ==> memo_ok(sources, h, #[trigger] b[i]),
    ensures
        linked(sources, b, tables, h),
{
    assert forall|i: int| 0 <= i < b.len() implies memo_ok(sources, h, #[trigger] b[i]) by {
        if i < a.len() {
            assert(a[i] == b[i]);
            assert(memo_ok(sources, g, a[i]));
            assert(g.subrange(a[i].start, a[i].end) =~= h.subrange(a[i].start, a[i].end));
        }
    }
    assert forall|j: int| 0 <= j < tables.len() implies table_ok(
        sources,
        b,
        h,
        #[trigger] tables[j],
    ) by {
        let t = tables[j];
        assert(table_ok(sources, a, g, t));
        let imports = imports_of(sources, t.path);
        lemma_memo_at_stable(a, b, t.path, 0);
        let i = memo_at(a, t.path, 0)->0;
        assert(memo_ok(sources, g, a[i]));
        assert(a[i] == b[i]);
        lemma_entries_stable(g, h, a[i].start, a[i].end);
        assert forall|k: int| 0 <= k < imports.len() implies memo_at(b, #[trigger] imports[k], 0) is Some by {
            lemma_memo_at_stable(a, b, imports[k], 0);
        }
        lemma_import_entries_stable(sources, g, h, a, b, imports, imports.len() as int);
    }
}

/// When the memo grows, no more sources wait than before.
pub proof fn lemma_unvisited_shrinks(
    sources: Seq<SourceView>,
    a: Seq<MemoView>,
    b: Seq<MemoView>,
    from: int,
)
    requires
        a.is_prefix_of(b),
        0 <= from,
    ensures
        unvisited(sources, b, from) <= unvisited(sources, a, from),
    decreases sources.len() - from,
{
    if from < sources.len() {
        lemma_unvisited_shrinks(sources, a, b, from + 1);
        lemma_memo_at_stable(a, b, sources[from].path, 0);
    }
}

/// When the path of a source that waited joins the memo, fewer sources
/// wait than before.
pub proof fn lemma_unvisited_drops(
    sources: Seq<SourceView>,
    a: Seq<MemoView>,
    b: Seq<MemoView>,
    from: int,
    k: int,
)
    requires
        a.is_prefix_of(b),
        0 <= from <= k < sources.len(),
        memo_at(a, sources[k].path, 0) is None,
        memo_at(b, sources[k].path, 0) is Some,
    ensures
        unvisited(sources, b, from) < unvisited(sources, a, from),
    decreases sources.len() - from,
{
    lemma_unvisited_shrinks(sources, a, b, from + 1);
    if from < k {
        lemma_unvisited_drops(sources, a, b, from + 1, k);
        lemma_memo_at_stable(a, b, sources[from].path, 0);
    }
}

/// A path that the memo gains at its end, and lacked before, is found at
/// that place.
pub proof fn lemma_memo_at_new(a: Seq<MemoView>, e: MemoView, from: int)
    requires
        0 <= from <= a.len(),
        memo_at(a, e.path, from) is None,
    ensures
        memo_at(a.push(e), e.path, from) == Some(a.len() as int),
    decreases a.len() - from,
{
    if from < a.len() {
        assert(a.push(e)[from] == a[from]);
        lemma_memo_at_new(a, e, from + 1);
    }
}

/// A table that the tables gain at their end is found.
pub proof fn lemma_table_at_finds(tables: Seq<TableView>, path: Seq<char>, from: int, k: int)
    requires
        0 <= from <= k < tables.len(),
        tables[k].path == path,
    ensures
        table_at(tables, path, from) is Some,
    decreases tables.len() - from,
{
    if tables[from].path != path {
        lemma_table_at_finds(tables, path, from + 1, k);
    }
}

/// The index of the first source of the given path.
pub fn find_source(sources: &Vec<SourceFile>, path: &String) -> (out: Option<usize>)
    ensures
        match source_at(source_views(sources@), path@, 0) {
            Some(k) => out == Some(k as usize) && 0 <= k < sources.len() && sources[k]@.path == path@,
            None => out is None,
        },
{
    let mut i: usize = 0;
    while i < sources.len()
        invariant
            i <= sources.len(),
            source_at(source_views(sources@), path@, 0) == source_at(
                source_views(sources@),
                path@,
                i as int,
            ),
        decreases sources.len() - i,
    {
        if sources[i].path == *path {
            return Some(i);
        }
        i += 1;
    }
    None
}

/// The index of the first memo entry of the given path.
pub fn find_memo(memo: &Vec<MemoEntry>, path: &String) -> (out: Option<usize>)
    ensures
        match memo_at(memo_views(memo@), path@, 0) {
            Some(k) => out == Some(k as usize) && 0 <= k < memo.len() && memo[k]@.path == path@,
            None => out is None,
        },
{
    let mut i: usize = 0;
    while i < memo.len()
        invariant
            i <= memo.len(),
            memo_at(memo_views(memo@), path@, 0) == memo_at(memo_views(memo@), path@, i as int),
        decreases memo.len() - i,
    {
        if memo[i].path == *path {
            return Some(i);
        }
        i += 1;
    }
    None
}

/// The index of the first lookup table of the given path.
pub fn find_table(tables: &Vec<LookTable>, path: &String) -> (out: Option<usize>)
    ensures
        match table_at(table_views(tables@), path@, 0) {
            Some(k) => out == Some(k as usize) && 0 <= k < tables.len() && tables[k]@.path == path@,
            None => out is None,
        },
{
    let mut i: usize = 0;
    while i < tables.len()
        invariant
            i <= tables.len(),
            table_at(table_views(tables@), path@, 0) == table_at(
                table_views(tables@),
                path@,
                i as int,
            ),
        decreases tables.len() - i,
    {
        if tables[i].path == *path {
            return Some(i);
        }
        i += 1;
    }
    None
}

/// The place to which a name resolves in a lookup table.
pub fn lookup(table: &LookTable, name: &String) -> (out: Option<usize>)
    ensures
        match resolve(table@.names, name@, table@.names.len() as int) {
            Some(i) => out == Some(i as usize) && 0 <= i <= usize::MAX,
            None => out is None,
        },
{
    let mut i = table.names.len();
    while i > 0
        invariant
            i <= table.names.len(),
            table@.names.len() == table.names.len(),
            resolve(table@.names, name@, table@.names.len() as int) == resolve(
                table@.names,
                name@,
                i as int,
            ),
        decreases i,
    {
        i -= 1;
        if table.names[i].name == *name {
            return Some(table.names[i].index);
        }
    }
    None
}

/// The name that a declaration declares.
fn name_of(decl: &Node) -> (out: String)
    requires
        decl@.is_declaration(),
    ensures
        out@ == decl_name(decl@),
{
    match &decl.nodetype {
        NodeType::FunDef(name, _) => name.clone(),
        NodeType::Constructor(name, _) => name.clone(),
        _ => unreached(),
    }
}

/// Merges the declarations from `start` up to `end` into a lookup table.
fn add_range(names: &mut Vec<LookEntry>, globals: &Vec<Node>, start: usize, end: usize)
    requires
        start <= end <= globals.len(),
        all_declarations(node_views(globals@).subrange(start as int, end as int)),
    ensures
        look_views(final(names)@) == look_views(old(names)@) + entries_of(
            node_views(globals@),
            start as int,
            end as int,
        ),
{
    let mut i = start;
    proof {
        lemma_node_views(globals@);
        assert(look_views(names@) =~= look_views(old(names)@) + entries_of(
            node_views(globals@),
            start as int,
            start as int,
        ));
    }
    while i < end
        invariant
            start <= i <= end <= globals.len(),
            all_declarations(node_views(globals@).subrange(start as int, end as int)),
            look_views(names@) == look_views(old(names)@) + entries_of(
                node_views(globals@),
                start as int,
                i as int,
            ),
        decreases end - i,
    {
        proof {
            lemma_node_views(globals@);
            assert(node_views(globals@).subrange(start as int, end as int)[i - start]
                == globals[i as int]@);
        }
        let entry = LookEntry { name: name_of(&globals[i]), index: i };
        let ghost before = look_views(names@);
        names.push(entry);
        proof {
            assert(look_views(names@) =~= before.push(entry@));
            assert(before.push(entry@) =~= look_views(old(names)@) + entries_of(
                node_views(globals@),
                start as int,
                i + 1,
            ));
        }
        i += 1;
    }
}

/// Visits the file `filepath` and every file that it reaches by `import`
/// and that was not visited before.
///
/// The file is looked up in `sources`, lexed and parsed; its declarations
/// go behind what `globals` holds, its classes into `objsys`, and `memo`
/// gains the range of its declarations. Then its imports are visited in
/// order, each unless the memo holds it already. The file's lookup table
/// holds its own declarations first and then those of each import, in the
/// order of the imports, so that of two declarations of one name the one
/// merged later counts. A file that the memo holds already is left alone.
///
/// Every visit adds a path to the memo that a source has and the memo
/// lacked, so the sources that wait become fewer with each visit.
///
/// What is built, and the error, are those of [`visit`]. Where the linker
/// fails, what it has built until then stays, and is sound.
pub fn filecurse(
    filepath: String,
    sources: &Vec<SourceFile>,
    memo: &mut Vec<MemoEntry>,
    looktables: &mut Vec<LookTable>,
    globals: &mut Vec<Node>,
    objsys: &mut ObjSys,
    ctx: &mut Ctx,
) -> (out: Result<(), LinkError>)
    requires
        linked(
            source_views(sources@),
            memo_views(old(memo)@),
            table_views(old(looktables)@),
            node_views(old(globals)@),
        ),
    ensures
        visit_post(
            visit(
                source_views(sources@),
                filepath@,
                link_of(old(memo)@, old(looktables)@, old(globals)@, *old(objsys)),
            ),
            link_of(final(memo)@, final(looktables)@, final(globals)@, *final(objsys)),
            out,
        ),
        out is Ok ==> extends(
            link_of(old(memo)@, old(looktables)@, old(globals)@, *old(objsys)),
            link_of(final(memo)@, final(looktables)@, final(globals)@, *final(objsys)),
        ),
        out is Ok ==> forall|i: int|
            old(memo)@.len() <= i < final(memo)@.len() ==> reaches(
                source_views(sources@),
                filepath@,
                (#[trigger] memo_views(final(memo)@)[i]).path,
            ),
        out matches Err(LinkError::Missing(p)) ==> file_program(source_views(sources@), p@) is None
            && reaches(source_views(sources@), filepath@, p@),
        out matches Err(LinkError::Rejected(f, e)) ==> file_program(source_views(sources@), f@)
            == Some(Err::<Program, Fault>(e@)) && reaches(source_views(sources@), filepath@, f@),
        memo_views(old(memo)@).is_prefix_of(memo_views(final(memo)@)),
        table_views(old(looktables)@).is_prefix_of(table_views(final(looktables)@)),
        node_views(old(globals)@).is_prefix_of(node_views(final(globals)@)),
        final(objsys)@.instances == old(objsys)@.instances,
        final(ctx).debug == old(ctx).debug,
        linked(
            source_views(sources@),
            memo_views(final(memo)@),
            table_views(final(looktables)@),
            node_views(final(globals)@),
        ),
        final(objsys)@.classes == old(objsys)@.classes + classes_of(
            source_views(sources@),
            memo_views(final(memo)@),
            old(memo)@.len() as int,
        ),
        out is Ok ==> memo_at(memo_views(final(memo)@), filepath@, 0) is Some,
        out is Ok && memo_at(memo_views(old(memo)@), filepath@, 0) is None ==> {
            &&& table_at(table_views(final(looktables)@), filepath@, 0) is Some
            &&& final(memo)@.len() > old(memo)@.len()
            &&& unvisited(source_views(sources@), memo_views(final(memo)@), 0) < unvisited(
                source_views(sources@),
                memo_views(old(memo)@),
                0,
            )
        },
    decreases unvisited(source_views(sources@), memo_views(old(memo)@), 0),
{
    let ghost all = source_views(sources@);
    let ghost m0 = memo_views(memo@);
    let ghost t0 = table_views(looktables@);
    let ghost g0 = node_views(globals@);
    let ghost c0 = objsys@.classes;
    let ghost s0 = link_of(memo@, looktables@, globals@, *objsys);
    proof {
        assert(c0 + classes_of(all, m0, m0.len() as int) =~= c0);
        law_visit_grows(all, filepath@, s0);
        law_visit_needs(all, filepath@, s0);
    }
    if find_memo(memo, &filepath).is_some() {
        return Ok(());
    }
    let k = match find_source(sources, &filepath) {
        Some(k) => k,
        None => {
            return Err(LinkError::Missing(filepath));
        },
    };
    assert(all[k as int] == sources[k as int]@);
    let mut reader = match lex(sources[k].text.as_str()) {
        Ok(r) => r,
        Err(e) => {
            return Err(LinkError::Rejected(filepath, e));
        },
    };
    ctx.filepath = filepath.clone();
    let oldlen = globals.len();
    let imports = match parse(&mut reader, globals, objsys, ctx) {
        Ok(v) => v,
        Err(e) => {
            return Err(LinkError::Rejected(filepath, e));
        },
    };
    let ghost prog = file_program(all, filepath@)->0->Ok_0;
    let ghost s1 = entered(s0, filepath@, prog);
    let end1 = globals.len();
    let ghost g1 = node_views(globals@);
    let entry = MemoEntry { path: filepath.clone(), start: oldlen, end: end1 };
    let ghost mine = entry@;
    memo.push(entry);
    let ghost m1 = memo_views(memo@);
    let ghost at = m0.len() as int;
    proof {
        lemma_node_views(globals@);
        lemma_node_views(old(globals)@);
        assert(m1 =~= m0.push(mine));
        assert(g1.subrange(oldlen as int, end1 as int) =~= prog.globals);
        assert(classes_in(all, filepath@) == prog.classes);
        assert(m1[m0.len() as int] == mine);
        assert(classes_of(all, m1, (m0.len() + 1) as int) =~= Seq::<ClassView>::empty());
        assert(classes_of(all, m1, m0.len() as int) =~= prog.classes);
        lemma_linked_grows(all, m0, m1, t0, g0, g1);
        lemma_memo_at_new(m0, mine, 0);
        lemma_unvisited_drops(all, m0, m1, 0, k as int);
        assert(link_of(memo@, looktables@, globals@, *objsys) == s1);
    }
    let mut names: Vec<LookEntry> = Vec::new();
    add_range(&mut names, globals, oldlen, end1);
    proof {
        assert(look_views(names@) =~= entries_of(g1, oldlen as int, end1 as int) + import_entries(
            g1,
            m1,
            prog.imports,
            0,
        ));
    }
    let mut n: usize = 0;
    while n < imports.len()
        invariant
            n <= imports.len(),
            all == source_views(sources@),
            m0 == memo_views(old(memo)@),
            t0 == table_views(old(looktables)@),
            g0 == node_views(old(globals)@),
            c0 == old(objsys)@.classes,
            s0 == link_of(old(memo)@, old(looktables)@, old(globals)@, *old(objsys)),
            linked(all, memo_views(memo@), table_views(looktables@), node_views(globals@)),
            m1.is_prefix_of(memo_views(memo@)),
            m0.is_prefix_of(m1),
            t0.is_prefix_of(table_views(looktables@)),
            g0.is_prefix_of(g1),
            g1.is_prefix_of(node_views(globals@)),
            objsys@.classes == c0 + classes_of(all, memo_views(memo@), m0.len() as int),
            objsys@.instances == old(objsys)@.instances,
            ctx.debug == old(ctx).debug,
            at == m0.len(),
            m1.len() == at + 1,
            m1[at] == mine,
            mine.path == filepath@,
            mine.start == oldlen,
            mine.end == end1,
            oldlen <= end1 <= g1.len(),
            memo_at(m0, filepath@, 0) is None,
            memo_at(m1, filepath@, 0) == Some(at),
            file_program(all, filepath@) == Some(Ok::<Program, Fault>(prog)),
            string_views(imports@) == prog.imports,
            forall|i: int| 0 <= i < n ==> memo_at(memo_views(memo@), #[trigger] prog.imports[i], 0) is Some,
            look_views(names@) == entries_of(node_views(globals@), oldlen as int, end1 as int)
                + import_entries(node_views(globals@), memo_views(memo@), prog.imports, n as int),
            unvisited(all, memo_views(memo@), 0) < unvisited(all, m0, 0),
            visit(all, filepath@, s0) == completed(
                all,
                filepath@,
                visit_imports(
                    all,
                    prog.imports,
                    n as int,
                    link_of(memo@, looktables@, globals@, *objsys),
                ),
            ),
        decreases imports.len() - n,
    {
        let ghost ma = memo_views(memo@);
        let ghost ga = node_views(globals@);
        let ghost cur = link_of(memo@, looktables@, globals@, *objsys);
        assert(string_views(imports@)[n as int] == imports[n as int]@);
        let visited = if find_memo(memo, &imports[n]).is_none() {
            filecurse(imports[n].clone(), sources, memo, looktables, globals, objsys, ctx)
        } else {
            Ok(())
        };
        let ghost mb = memo_views(memo@);
        let ghost gb = node_views(globals@);
        proof {
            lemma_entries_stable(g1, ga, oldlen as int, end1 as int);
            lemma_entries_stable(g1, gb, oldlen as int, end1 as int);
            lemma_import_entries_stable(all, ga, gb, ma, mb, prog.imports, n as int);
            lemma_classes_split(all, ma, mb, m0.len() as int);
            assert(c0 + (classes_of(all, ma, m0.len() as int) + classes_of(all, mb, ma.len() as int))
                =~= (c0 + classes_of(all, ma, m0.len() as int)) + classes_of(
                all,
                mb,
                ma.len() as int,
            ));
            lemma_unvisited_shrinks(all, ma, mb, 0);
            assert forall|i: int| 0 <= i < n implies memo_at(mb, #[trigger] prog.imports[i], 0) is Some by {
                lemma_memo_at_stable(ma, mb, prog.imports[i], 0);
            }
            lemma_memo_at_stable(mb, mb, imports[n as int]@, 0);
            law_visit_needs(all, filepath@, s0);
            assert(visit_post(
                visit(all, prog.imports[n as int], cur),
                link_of(memo@, looktables@, globals@, *objsys),
                visited,
            ));
        }
        match visited {
            Ok(_) => {},
            Err(e) => {
                return Err(e);
            },
        }
        match find_memo(memo, &imports[n]) {
            Some(i) => {
                let cs = memo[i].start;
                let ce = memo[i].end;
                proof {
                    assert(mb[i as int] == memo[i as int]@);
                    assert(memo_ok(all, gb, mb[i as int]));
                    lemma_node_views(globals@);
                }
                add_range(&mut names, globals, cs, ce);
                proof {
                    assert(look_views(names@) =~= entries_of(gb, oldlen as int, end1 as int)
                        + import_entries(gb, mb, prog.imports, n + 1));
                }
            },
            None => {
                assert(false);
            },
        }
        n += 1;
    }
    let table = LookTable { path: filepath, names };
    let ghost mz = memo_views(memo@);
    let ghost gz = node_views(globals@);
    let ghost tz = table_views(looktables@);
    let ghost sz = link_of(memo@, looktables@, globals@, *objsys);
    proof {
        lemma_memo_at_stable(m1, mz, table@.path, 0);
        assert(mz[at] == m1[at]);
        assert(range_of(mz, table@.path) == (oldlen as int, end1 as int));
        assert(imports_of(all, table@.path) == prog.imports);
        assert(table_ok(all, mz, gz, table@));
        assert(table@ == table_for(all, sz, table@.path));
        law_visit_grows(all, filepath@, s0);
        law_visit_needs(all, filepath@, s0);
    }
    looktables.push(table);
    proof {
        let tn = table_views(looktables@);
        assert(tn =~= tz.push(table@));
        lemma_table_at_finds(tn, table@.path, 0, tz.len() as int);
        assert forall|j: int| 0 <= j < tn.len() implies table_ok(all, mz, gz, #[trigger] tn[j]) by {
            if j < tz.len() {
                assert(tn[j] == tz[j]);
            }
        }
    }
    Ok(())
}

} // verus!
