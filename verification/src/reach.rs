//! What holds of every visit of the linker: what a visit builds, where the
//! ranges of the visited files lie, and which files a visit needs.

use crate::grammar::Program;
use crate::linker::{
    completed, entered, file_program, imports_of, lemma_memo_at_new, lemma_memo_at_stable,
    lemma_unvisited_drops, lemma_unvisited_shrinks, memo_at, source_at, unvisited, visit,
    visit_imports, Link, MemoView, SourceView, Visit,
};
use crate::utils::Fault;
use vstd::prelude::*;

verus! {

/// The ranges of the memo entries from `from` on lie one behind the other:
/// the first begins at `start`, each begins where the one before it ends,
/// and the last ends at `end`.
pub open spec fn tiles(memo: Seq<MemoView>, from: int, start: int, end: int) -> bool
    decreases memo.len() - from,
{
    if from < 0 || from >= memo.len() {
        start == end
    } else {
        &&& memo[from].start == start
        &&& memo[from].start <= memo[from].end
        &&& tiles(memo, from + 1, memo[from].end, end)
    }
}

/// The link `t` is the link `s` with more visits: what `s` holds stands
/// first in `t`; the ranges that the memo has gained lie one behind the
/// other from the end of the globals of `s` to the end of those of `t`;
/// every path that the memo has gained stands in it once; every file that
/// the memo has gained has got its lookup table; and every lookup table
/// that was gained is that of a file that the memo has gained.
pub open spec fn extends(s: Link, t: Link) -> bool {
    &&& s.memo.is_prefix_of(t.memo)
    &&& s.tables.is_prefix_of(t.tables)
    &&& s.globals.is_prefix_of(t.globals)
    &&& s.classes.is_prefix_of(t.classes)
    &&& tiles(t.memo, s.memo.len() as int, s.globals.len() as int, t.globals.len() as int)
    &&& forall|i: int|
        s.memo.len() <= i < t.memo.len() ==> memo_at(t.memo, (#[trigger] t.memo[i]).path, 0) == Some(i)
    &&& forall|i: int|
        s.memo.len() <= i < t.memo.len() ==> exists|j: int|
            s.tables.len() <= j < t.tables.len() && (#[trigger] t.tables[j]).path == (
            #[trigger] t.memo[i]).path
    &&& forall|j: int|
        s.tables.len() <= j < t.tables.len() ==> exists|i: int|
            s.memo.len() <= i < t.memo.len() && (#[trigger] t.memo[i]).path == (
            #[trigger] t.tables[j]).path
}

/// A source that is found stands at the place found and has the path.
pub proof fn lemma_source_found(sources: Seq<SourceView>, path: Seq<char>, from: int)
    requires
        0 <= from,
    ensures
        source_at(sources, path, from) matches Some(k) ==> from <= k < sources.len()
            && sources[k].path == path,
    decreases sources.len() - from,
{
    if from < sources.len() && sources[from].path != path {
        lemma_source_found(sources, path, from + 1);
    }
}

/// Ranges that lie one behind the other up to the end of a memo, and on
/// from there in a longer memo, do so all the way.
pub proof fn lemma_tiles_join(
    a: Seq<MemoView>,
    b: Seq<MemoView>,
    from: int,
    x: int,
    y: int,
    z: int,
)
    requires
        a.is_prefix_of(b),
        0 <= from <= a.len(),
        tiles(a, from, x, y),
        tiles(b, a.len() as int, y, z),
    ensures
        tiles(b, from, x, z),
    decreases a.len() - from,
{
    if from < a.len() {
        assert(a[from] == b[from]);
        lemma_tiles_join(a, b, from + 1, a[from].end, y, z);
    }
}

/// Two steps of growth make one.
pub proof fn lemma_extends_twice(s: Link, t: Link, u: Link)
    requires
        extends(s, t),
        extends(t, u),
    ensures
        extends(s, u),
{
    lemma_tiles_join(
        t.memo,
        u.memo,
        s.memo.len() as int,
        s.globals.len() as int,
        t.globals.len() as int,
        u.globals.len() as int,
    );
    assert forall|i: int| s.memo.len() <= i < u.memo.len() implies memo_at(
        u.memo,
        (#[trigger] u.memo[i]).path,
        0,
    ) == Some(i) by {
        if i < t.memo.len() {
            assert(t.memo[i] == u.memo[i]);
            lemma_memo_at_stable(t.memo, u.memo, t.memo[i].path, 0);
        }
    }
    assert forall|i: int| s.memo.len() <= i < u.memo.len() implies exists|j: int|
        s.tables.len() <= j < u.tables.len() && (#[trigger] u.tables[j]).path == (
        #[trigger] u.memo[i]).path by {
        if i < t.memo.len() {
            assert(t.memo[i] == u.memo[i]);
            let j = choose|j: int|
                s.tables.len() <= j < t.tables.len() && (#[trigger] t.tables[j]).path
                    == t.memo[i].path;
            assert(t.tables[j] == u.tables[j]);
        } else {
            let j = choose|j: int|
                t.tables.len() <= j < u.tables.len() && (#[trigger] u.tables[j]).path
                    == u.memo[i].path;
            assert(s.tables.len() <= j);
        }
    }
    assert forall|j: int| s.tables.len() <= j < u.tables.len() implies exists|i: int|
        s.memo.len() <= i < u.memo.len() && (#[trigger] u.memo[i]).path == (
        #[trigger] u.tables[j]).path by {
        if j < t.tables.len() {
            assert(t.tables[j] == u.tables[j]);
            let i = choose|i: int|
                s.memo.len() <= i < t.memo.len() && (#[trigger] t.memo[i]).path
                    == t.tables[j].path;
            assert(t.memo[i] == u.memo[i]);
        } else {
            let i = choose|i: int|
                t.memo.len() <= i < u.memo.len() && (#[trigger] u.memo[i]).path
                    == u.tables[j].path;
            assert(s.memo.len() <= i);
        }
    }
}

/// A visit that is done has built on the link it began with. And the
/// visit of a file that the memo lacks and that parses is the entry of the
/// file, the visits of its imports, and the file's lookup table.
pub proof fn law_visit_grows(sources: Seq<SourceView>, path: Seq<char>, s: Link)
    ensures
        visit(sources, path, s) matches Visit::Done(t) ==> extends(s, t),
        visit(sources, path, s) matches Visit::Done(t) ==> memo_at(t.memo, path, 0) is Some,
        memo_at(s.memo, path, 0) is None ==> (file_program(sources, path) matches Some(Ok(prog))
            ==> visit(sources, path, s) == completed(
            sources,
            path,
            visit_imports(sources, prog.imports, 0, entered(s, path, prog)),
        )),
    decreases unvisited(sources, s.memo, 0), 0int, 0int,
{
    if memo_at(s.memo, path, 0) is Some {
        assert(tiles(s.memo, s.memo.len() as int, s.globals.len() as int, s.globals.len() as int));
    } else {
        match file_program(sources, path) {
            Some(Ok(prog)) => {
                let s1 = entered(s, path, prog);
                let at = s.memo.len() as int;
                lemma_source_found(sources, path, 0);
                let k = source_at(sources, path, 0)->0;
                lemma_memo_at_new(s.memo, s1.memo[at], 0);
                lemma_unvisited_drops(sources, s.memo, s1.memo, 0, k);
                law_imports_grow(sources, prog.imports, 0, s1);
                match visit_imports(sources, prog.imports, 0, s1) {
                    Visit::Done(s2) => {
                        let t = visit(sources, path, s)->Done_0;
                        assert(t.tables == s2.tables.push(crate::linker::table_for(sources, s2, path)));
                        assert(s2.memo[at] == s1.memo[at]);
                        lemma_memo_at_stable(s1.memo, s2.memo, path, 0);
                        assert(tiles(t.memo, at, s.globals.len() as int, t.globals.len() as int));
                        assert forall|i: int| s.memo.len() <= i < t.memo.len() implies exists|j: int|
                            s.tables.len() <= j < t.tables.len() && (#[trigger] t.tables[j]).path == (
                            #[trigger] t.memo[i]).path by {
                            if i == at {
                                assert(t.tables[s2.tables.len() as int].path == path);
                            } else {
                                let j = choose|j: int|
                                    s1.tables.len() <= j < s2.tables.len() && (
                                    #[trigger] s2.tables[j]).path == s2.memo[i].path;
                                assert(t.tables[j] == s2.tables[j]);
                            }
                        }
                        assert forall|j: int| s.tables.len() <= j < t.tables.len() implies exists|i: int|
                            s.memo.len() <= i < t.memo.len() && (#[trigger] t.memo[i]).path == (
                            #[trigger] t.tables[j]).path by {
                            if j == s2.tables.len() {
                                assert(t.memo[at].path == path);
                            } else {
                                assert(t.tables[j] == s2.tables[j]);
                                let i = choose|i: int|
                                    s1.memo.len() <= i < s2.memo.len() && (
                                    #[trigger] s2.memo[i]).path == s2.tables[j].path;
                                assert(t.memo[i] == s2.memo[i]);
                            }
                        }
                    },
                    _ => {},
                }
            },
            _ => {},
        }
    }
}

/// The visits of imports that are done have built on the link they began
/// with, and every import from the `n`th on is in the memo. And the visits
/// of the imports from the `n`th on are the visit of the `n`th, followed by
/// those of the rest.
pub proof fn law_imports_grow(
    sources: Seq<SourceView>,
    imports: Seq<Seq<char>>,
    n: int,
    s: Link,
)
    requires
        0 <= n,
    ensures
        visit_imports(sources, imports, n, s) matches Visit::Done(t) ==> extends(s, t),
        visit_imports(sources, imports, n, s) matches Visit::Done(t) ==> forall|k: int|
            n <= k < imports.len() ==> memo_at(t.memo, #[trigger] imports[k], 0) is Some,
        n < imports.len() ==> visit_imports(sources, imports, n, s) == match visit(
            sources,
            imports[n],
            s,
        ) {
            Visit::Done(s1) => visit_imports(sources, imports, n + 1, s1),
            other => other,
        },
    decreases unvisited(sources, s.memo, 0), 1int, imports.len() - n,
{
    if n >= imports.len() {
        assert(tiles(s.memo, s.memo.len() as int, s.globals.len() as int, s.globals.len() as int));
    } else {
        law_visit_grows(sources, imports[n], s);
        match visit(sources, imports[n], s) {
            Visit::Done(s1) => {
                lemma_unvisited_shrinks(sources, s.memo, s1.memo, 0);
                law_imports_grow(sources, imports, n + 1, s1);
                match visit_imports(sources, imports, n + 1, s1) {
                    Visit::Done(t) => {
                        lemma_extends_twice(s, s1, t);
                        lemma_memo_at_stable(s1.memo, t.memo, imports[n], 0);
                    },
                    _ => {},
                }
            },
            _ => {},
        }
    }
}

/// Every file of the chain but the first is imported by the file before
/// it.
pub open spec fn import_chain(sources: Seq<SourceView>, chain: Seq<Seq<char>>) -> bool {
    &&& chain.len() > 0
    &&& forall|i: int|
        0 < i < chain.len() ==> imports_of(sources, chain[i - 1]).contains(#[trigger] chain[i])
}

/// The file `root` reaches the file `p`: it is `p`, or imports it, or
/// imports a file that reaches it.
pub open spec fn reaches(sources: Seq<SourceView>, root: Seq<char>, p: Seq<char>) -> bool {
    exists|chain: Seq<Seq<char>>| #[trigger]
        import_chain(sources, chain) && chain[0] == root && chain.last() == p
}

/// One of the imports from the `n`th on reaches the file `p`.
pub open spec fn reached_from(
    sources: Seq<SourceView>,
    imports: Seq<Seq<char>>,
    n: int,
    p: Seq<char>,
) -> bool {
    exists|k: int| n <= k < imports.len() && reaches(sources, #[trigger] imports[k], p)
}

/// A file reaches itself.
pub proof fn lemma_reaches_itself(sources: Seq<SourceView>, p: Seq<char>)
    ensures
        reaches(sources, p, p),
{
    let chain = seq![p];
    assert(import_chain(sources, chain) && chain[0] == p && chain.last() == p);
}

/// A file reaches what one of its imports reaches.
pub proof fn lemma_reaches_through(
    sources: Seq<SourceView>,
    root: Seq<char>,
    imports: Seq<Seq<char>>,
    n: int,
    p: Seq<char>,
)
    requires
        0 <= n,
        imports == imports_of(sources, root),
        reached_from(sources, imports, n, p),
    ensures
        reaches(sources, root, p),
{
    let k = choose|k: int| n <= k < imports.len() && reaches(sources, #[trigger] imports[k], p);
    let c = choose|chain: Seq<Seq<char>>| #[trigger]
        import_chain(sources, chain) && chain[0] == imports[k] && chain.last() == p;
    let chain = seq![root] + c;
    assert forall|i: int| 0 < i < chain.len() implies imports_of(sources, chain[i - 1]).contains(
        #[trigger] chain[i],
    ) by {
        if i == 1 {
            assert(chain[1] == imports[k]);
        } else {
            assert(chain[i] == c[i - 1]);
            assert(chain[i - 1] == c[i - 2]);
        }
    }
    assert(import_chain(sources, chain) && chain[0] == root && chain.last() == p);
}

/// A visit ends only at a file that it needs, and enters only such files:
/// the file at which it ends is reached from the file visited, and is
/// missing from the sources, or rejected with that fault; and every path
/// that the memo gains is reached from the file visited.
pub proof fn law_visit_needs(sources: Seq<SourceView>, path: Seq<char>, s: Link)
    ensures
        match visit(sources, path, s) {
            Visit::Done(t) => forall|i: int|
                s.memo.len() <= i < t.memo.len() ==> reaches(sources, path, (#[trigger] t.memo[i]).path),
            Visit::Missing(p) => file_program(sources, p) is None && reaches(sources, path, p),
            Visit::Rejected(p, f) => file_program(sources, p) == Some(Err::<Program, Fault>(f))
                && reaches(sources, path, p),
        },
    decreases unvisited(sources, s.memo, 0), 0int, 0int,
{
    lemma_reaches_itself(sources, path);
    if memo_at(s.memo, path, 0) is None {
        match file_program(sources, path) {
            Some(Ok(prog)) => {
                let s1 = entered(s, path, prog);
                let at = s.memo.len() as int;
                law_visit_grows(sources, path, s);
                lemma_source_found(sources, path, 0);
                let k = source_at(sources, path, 0)->0;
                lemma_memo_at_new(s.memo, s1.memo[at], 0);
                lemma_unvisited_drops(sources, s.memo, s1.memo, 0, k);
                law_imports_need(sources, prog.imports, 0, s1);
                law_imports_grow(sources, prog.imports, 0, s1);
                match visit_imports(sources, prog.imports, 0, s1) {
                    Visit::Done(s2) => {
                        let t = visit(sources, path, s)->Done_0;
                        assert forall|i: int| s.memo.len() <= i < t.memo.len() implies reaches(
                            sources,
                            path,
                            (#[trigger] t.memo[i]).path,
                        ) by {
                            if i == at {
                                assert(s2.memo[at] == s1.memo[at]);
                            } else {
                                assert(reached_from(sources, prog.imports, 0, s2.memo[i].path));
                                lemma_reaches_through(sources, path, prog.imports, 0, t.memo[i].path);
                            }
                        }
                    },
                    Visit::Missing(p) => {
                        lemma_reaches_through(sources, path, prog.imports, 0, p);
                    },
                    Visit::Rejected(p, f) => {
                        lemma_reaches_through(sources, path, prog.imports, 0, p);
                    },
                }
            },
            _ => {},
        }
    }
}

/// As [`law_visit_needs`], for the visits of the imports from the `n`th
/// on.
pub proof fn law_imports_need(
    sources: Seq<SourceView>,
    imports: Seq<Seq<char>>,
    n: int,
    s: Link,
)
    requires
        0 <= n,
    ensures
        match visit_imports(sources, imports, n, s) {
            Visit::Done(t) => forall|i: int|
                s.memo.len() <= i < t.memo.len() ==> reached_from(
                    sources,
                    imports,
                    n,
                    (#[trigger] t.memo[i]).path,
                ),
            Visit::Missing(p) => file_program(sources, p) is None && reached_from(
                sources,
                imports,
                n,
                p,
            ),
            Visit::Rejected(p, f) => file_program(sources, p) == Some(Err::<Program, Fault>(f))
                && reached_from(sources, imports, n, p),
        },
    decreases unvisited(sources, s.memo, 0), 1int, imports.len() - n,
{
    if n < imports.len() {
        law_visit_grows(sources, imports[n], s);
        law_visit_needs(sources, imports[n], s);
        law_imports_grow(sources, imports, n, s);
        match visit(sources, imports[n], s) {
            Visit::Done(s1) => {
                lemma_unvisited_shrinks(sources, s.memo, s1.memo, 0);
                law_imports_need(sources, imports, n + 1, s1);
                law_imports_grow(sources, imports, n + 1, s1);
                match visit_imports(sources, imports, n + 1, s1) {
                    Visit::Done(t) => {
                        assert forall|i: int| s.memo.len() <= i < t.memo.len() implies reached_from(
                            sources,
                            imports,
                            n,
                            (#[trigger] t.memo[i]).path,
                        ) by {
                            if i < s1.memo.len() {
                                assert(s1.memo[i] == t.memo[i]);
                                assert(reaches(sources, imports[n], t.memo[i].path));
                            } else {
                                lemma_reached_earlier(sources, imports, n, t.memo[i].path);
                            }
                        }
                    },
                    Visit::Missing(p) => {
                        lemma_reached_earlier(sources, imports, n, p);
                    },
                    Visit::Rejected(p, f) => {
                        lemma_reached_earlier(sources, imports, n, p);
                    },
                }
            },
            Visit::Missing(p) => {
                assert(reaches(sources, imports[n], p));
            },
            Visit::Rejected(p, f) => {
                assert(reaches(sources, imports[n], p));
            },
        }
    }
}

/// What the imports behind the `n`th reach, the imports from the `n`th on
/// reach.
pub proof fn lemma_reached_earlier(
    sources: Seq<SourceView>,
    imports: Seq<Seq<char>>,
    n: int,
    p: Seq<char>,
)
    requires
        reached_from(sources, imports, n + 1, p),
    ensures
        reached_from(sources, imports, n, p),
{
    let k = choose|k: int| n + 1 <= k < imports.len() && reaches(sources, #[trigger] imports[k], p);
    assert(n <= k < imports.len() && reaches(sources, imports[k], p));
}

/// Success is owed: where every file that the file `root` reaches is among
/// the sources and parses, the visit of `root` is done.
pub proof fn law_success_is_owed(sources: Seq<SourceView>, root: Seq<char>, s: Link)
    requires
        forall|p: Seq<char>| #[trigger]
            reaches(sources, root, p) ==> file_program(sources, p) matches Some(Ok(_)),
    ensures
        visit(sources, root, s) is Done,
{
    law_visit_needs(sources, root, s);
}

/// The memo holds every import of the file `path`.
pub open spec fn imports_held(sources: Seq<SourceView>, memo: Seq<MemoView>, path: Seq<char>) -> bool {
    forall|k: int|
        0 <= k < imports_of(sources, path).len() ==> memo_at(
            memo,
            #[trigger] imports_of(sources, path)[k],
            0,
        ) is Some
}

/// Every file of the memo is one of those whose visit is `pending`, or
/// has all its imports in the memo.
pub open spec fn closed(sources: Seq<SourceView>, memo: Seq<MemoView>, pending: Set<Seq<char>>) -> bool {
    forall|i: int|
        0 <= i < memo.len() ==> pending.contains((#[trigger] memo[i]).path) || imports_held(
            sources,
            memo,
            memo[i].path,
        )
}

/// A closed memo that grows at its end stays closed, where the new
/// entries are pending or have their imports in the memo.
pub proof fn lemma_closed_grows(
    sources: Seq<SourceView>,
    a: Seq<MemoView>,
    b: Seq<MemoView>,
    pending: Set<Seq<char>>,
)
    requires
        a.is_prefix_of(b),
        closed(sources, a, pending),
        forall|i: int|
            a.len() <= i < b.len() ==> pending.contains((#[trigger] b[i]).path) || imports_held(
                sources,
                b,
                b[i].path,
            ),
    ensures
        closed(sources, b, pending),
{
    assert forall|i: int| 0 <= i < b.len() implies pending.contains((#[trigger] b[i]).path)
        || imports_held(sources, b, b[i].path) by {
        if i < a.len() {
            assert(a[i] == b[i]);
            if !pending.contains(a[i].path) {
                assert(imports_held(sources, a, a[i].path));
                assert forall|k: int| 0 <= k < imports_of(sources, a[i].path).len() implies memo_at(
                    b,
                    #[trigger] imports_of(sources, a[i].path)[k],
                    0,
                ) is Some by {
                    lemma_memo_at_stable(a, b, imports_of(sources, a[i].path)[k], 0);
                }
            }
        }
    }
}

/// A visit that is done leaves the memo closed, if it was closed.
pub proof fn law_visit_closes(
    sources: Seq<SourceView>,
    path: Seq<char>,
    s: Link,
    pending: Set<Seq<char>>,
)
    requires
        closed(sources, s.memo, pending),
    ensures
        visit(sources, path, s) matches Visit::Done(t) ==> closed(sources, t.memo, pending),
    decreases unvisited(sources, s.memo, 0), 0int, 0int,
{
    if memo_at(s.memo, path, 0) is None {
        match file_program(sources, path) {
            Some(Ok(prog)) => {
                let s1 = entered(s, path, prog);
                let at = s.memo.len() as int;
                law_visit_grows(sources, path, s);
                lemma_source_found(sources, path, 0);
                let k = source_at(sources, path, 0)->0;
                lemma_memo_at_new(s.memo, s1.memo[at], 0);
                lemma_unvisited_drops(sources, s.memo, s1.memo, 0, k);
                let more = pending.insert(path);
                assert(closed(sources, s.memo, more));
                lemma_closed_grows(sources, s.memo, s1.memo, more);
                law_imports_close(sources, prog.imports, 0, s1, more);
                law_imports_grow(sources, prog.imports, 0, s1);
                match visit_imports(sources, prog.imports, 0, s1) {
                    Visit::Done(s2) => {
                        assert(imports_held(sources, s2.memo, path));
                        assert forall|i: int| 0 <= i < s2.memo.len() implies pending.contains(
                            (#[trigger] s2.memo[i]).path,
                        ) || imports_held(sources, s2.memo, s2.memo[i].path) by {
                            if s2.memo[i].path != path {
                                assert(more.contains(s2.memo[i].path) ==> pending.contains(
                                    s2.memo[i].path,
                                ));
                            }
                        }
                    },
                    _ => {},
                }
            },
            _ => {},
        }
    }
}

/// As [`law_visit_closes`], for the visits of the imports from the `n`th
/// on.
pub proof fn law_imports_close(
    sources: Seq<SourceView>,
    imports: Seq<Seq<char>>,
    n: int,
    s: Link,
    pending: Set<Seq<char>>,
)
    requires
        0 <= n,
        closed(sources, s.memo, pending),
    ensures
        visit_imports(sources, imports, n, s) matches Visit::Done(t) ==> closed(
            sources,
            t.memo,
            pending,
        ),
    decreases unvisited(sources, s.memo, 0), 1int, imports.len() - n,
{
    if n < imports.len() {
        law_visit_grows(sources, imports[n], s);
        law_visit_closes(sources, imports[n], s, pending);
        law_imports_grow(sources, imports, n, s);
        match visit(sources, imports[n], s) {
            Visit::Done(s1) => {
                lemma_unvisited_shrinks(sources, s.memo, s1.memo, 0);
                law_imports_close(sources, imports, n + 1, s1, pending);
            },
            _ => {},
        }
    }
}

/// A closed memo with nothing pending holds every file of a chain of
/// imports whose first file it holds.
pub proof fn lemma_chain_held(
    sources: Seq<SourceView>,
    memo: Seq<MemoView>,
    chain: Seq<Seq<char>>,
    i: int,
)
    requires
        closed(sources, memo, Set::empty()),
        import_chain(sources, chain),
        memo_at(memo, chain[0], 0) is Some,
        0 <= i < chain.len(),
    ensures
        memo_at(memo, chain[i], 0) is Some,
    decreases i,
{
    if i > 0 {
        lemma_chain_held(sources, memo, chain, i - 1);
        lemma_memo_at_stable(memo, memo, chain[i - 1], 0);
        let j = memo_at(memo, chain[i - 1], 0)->0;
        assert(memo[j].path == chain[i - 1]);
        assert(imports_held(sources, memo, memo[j].path));
        let imports = imports_of(sources, chain[i - 1]);
        assert(imports.contains(chain[i]));
        let k = choose|k: int| 0 <= k < imports.len() && imports[k] == chain[i];
        assert(memo_at(memo, imports[k], 0) is Some);
    }
}

/// Linking from nothing visits the files that the root reaches, and no
/// others: where the visit of `root` is done, the memo holds a path
/// exactly if `root` reaches it.
pub proof fn law_memo_is_what_is_reached(
    sources: Seq<SourceView>,
    root: Seq<char>,
    t: Link,
    p: Seq<char>,
)
    requires
        visit(sources, root, crate::linker::nothing_linked()) == Visit::Done(t),
    ensures
        memo_at(t.memo, p, 0) is Some <==> reaches(sources, root, p),
{
    let s = crate::linker::nothing_linked();
    law_visit_grows(sources, root, s);
    law_visit_needs(sources, root, s);
    law_visit_closes(sources, root, s, Set::empty());
    if memo_at(t.memo, p, 0) is Some {
        lemma_memo_at_stable(t.memo, t.memo, p, 0);
        let i = memo_at(t.memo, p, 0)->0;
        assert(reaches(sources, root, t.memo[i].path));
    }
    if reaches(sources, root, p) {
        let chain = choose|chain: Seq<Seq<char>>| #[trigger]
            import_chain(sources, chain) && chain[0] == root && chain.last() == p;
        lemma_chain_held(sources, t.memo, chain, chain.len() - 1);
    }
}

/// Linking from nothing gives a lookup table to the files that the root
/// reaches, and to no others.
pub proof fn law_tables_are_what_is_reached(
    sources: Seq<SourceView>,
    root: Seq<char>,
    t: Link,
    p: Seq<char>,
)
    requires
        visit(sources, root, crate::linker::nothing_linked()) == Visit::Done(t),
    ensures
        (exists|j: int| 0 <= j < t.tables.len() && (#[trigger] t.tables[j]).path == p) <==> reaches(
            sources,
            root,
            p,
        ),
{
    let s = crate::linker::nothing_linked();
    law_visit_grows(sources, root, s);
    law_memo_is_what_is_reached(sources, root, t, p);
    if reaches(sources, root, p) {
        lemma_memo_at_stable(t.memo, t.memo, p, 0);
        let i = memo_at(t.memo, p, 0)->0;
        assert(exists|j: int| 0 <= j < t.tables.len() && (#[trigger] t.tables[j]).path == (
        #[trigger] t.memo[i]).path);
    }
    if exists|j: int| 0 <= j < t.tables.len() && (#[trigger] t.tables[j]).path == p {
        let j = choose|j: int| 0 <= j < t.tables.len() && (#[trigger] t.tables[j]).path == p;
        let i = choose|i: int|
            0 <= i < t.memo.len() && (#[trigger] t.memo[i]).path == t.tables[j].path;
        crate::linker::lemma_memo_at_finds(t.memo, p, 0, i);
    }
}

} // verus!
