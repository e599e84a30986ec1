//! Laws of the grammar and of the lookup tables.

use crate::ops::int_result;
use crate::semantics::{arith_run, expression_run, run, value_run, FlowView, Machine, Run, World};
use crate::value::ValueView;
use crate::grammar::{access, access_rest, chain, left_fold, product, sum, term, Fold};
use crate::ops::quotient;
use crate::linker::{decl_name, entries_of, resolve, LookView};
use crate::node::{all_well_formed, Ast, AstKind};
use crate::reader::token_at;
use crate::token::TokenView;
use vstd::prelude::*;

verus! {

/// A well-formed tree has the children that its kind admits, and every
/// child is well formed in turn.
pub proof fn law_well_formed_shape(t: Ast)
    requires
        t.well_formed(),
    ensures
        t.admissible(),
        all_well_formed(t.children),
{
    reveal(Ast::well_formed);
}

/// The token neither goes on from a term by `.` nor joins two operands by
/// `*` or `/`.
pub open spec fn ends_product(t: Option<TokenView>) -> bool {
    !(t matches Some(TokenView::Access(_, _))) && !(t matches Some(TokenView::Mul(_, _))) && !(
    t matches Some(TokenView::Div(_, _)))
}

/// The token ends a product and joins no two operands by `+` or `-`.
pub open spec fn ends_sum(t: Option<TokenView>) -> bool {
    ends_product(t) && !(t matches Some(TokenView::Add(_, _))) && !(t matches Some(
        TokenView::Sub(_, _),
    ))
}

/// An integer literal with no `.` behind it is an access of its own.
pub proof fn lemma_literal_access(toks: Seq<TokenView>, pos: int, file: Seq<char>, v: i64)
    requires
        token_at(toks, pos) matches Some(TokenView::Int(w, _, _)) && w == v,
        !(token_at(toks, pos + 1) matches Some(TokenView::Access(_, _))),
    ensures
        access(toks, pos, file) == Ok::<(Ast, int), crate::utils::Fault>(
            (Ast::leaf(AstKind::Int(v)), pos + 1),
        ),
{
    reveal(access);
    reveal(term);
    reveal(access_rest);
}

/// An integer literal with no `.`, `*` or `/` behind it is a product of
/// its own.
pub proof fn lemma_literal_product(toks: Seq<TokenView>, pos: int, file: Seq<char>, v: i64)
    requires
        token_at(toks, pos) matches Some(TokenView::Int(w, _, _)) && w == v,
        ends_product(token_at(toks, pos + 1)),
    ensures
        product(toks, pos, file) == Ok::<(Ast, int), crate::utils::Fault>(
            (Ast::leaf(AstKind::Int(v)), pos + 1),
        ),
{
    lemma_literal_access(toks, pos, file, v);
    reveal(product);
    reveal(chain);
    reveal(access);
    assert(left_fold(seq![Ast::leaf(AstKind::Int(v))], Seq::empty(), 0) == Ast::leaf(AstKind::Int(v)));
}

/// Subtraction groups from the left: `a - b - c` is parsed as `(a - b) - c`.
pub proof fn law_subtraction_groups_left(
    toks: Seq<TokenView>,
    pos: int,
    file: Seq<char>,
    a: i64,
    b: i64,
    c: i64,
)
    requires
        token_at(toks, pos) matches Some(TokenView::Int(v, _, _)) && v == a,
        token_at(toks, pos + 1) matches Some(TokenView::Sub(_, _)),
        token_at(toks, pos + 2) matches Some(TokenView::Int(v, _, _)) && v == b,
        token_at(toks, pos + 3) matches Some(TokenView::Sub(_, _)),
        token_at(toks, pos + 4) matches Some(TokenView::Int(v, _, _)) && v == c,
        ends_sum(token_at(toks, pos + 5)),
    ensures
        sum(toks, pos, file) == Ok::<(Ast, int), crate::utils::Fault>(
            (
                Ast::binary(
                    AstKind::Sub,
                    Ast::binary(
                        AstKind::Sub,
                        Ast::leaf(AstKind::Int(a)),
                        Ast::leaf(AstKind::Int(b)),
                    ),
                    Ast::leaf(AstKind::Int(c)),
                ),
                pos + 5,
            ),
        ),
{
    lemma_literal_product(toks, pos, file, a);
    lemma_literal_product(toks, pos + 2, file, b);
    lemma_literal_product(toks, pos + 4, file, c);
    reveal(sum);
    reveal(product);
    reveal_with_fuel(chain, 3);
    let la = Ast::leaf(AstKind::Int(a));
    let lb = Ast::leaf(AstKind::Int(b));
    let lc = Ast::leaf(AstKind::Int(c));
    let op = Ast::leaf(AstKind::Sub);
    let c3 = chain(Fold::Sum, toks, pos + 4, file);
    assert(c3 == Ok::<(Seq<Ast>, Seq<Ast>, int), crate::utils::Fault>(
        (seq![lc], Seq::empty(), pos + 5),
    ));
    let c2 = chain(Fold::Sum, toks, pos + 2, file);
    assert(c2 == Ok::<(Seq<Ast>, Seq<Ast>, int), crate::utils::Fault>(
        (seq![lb] + seq![lc], seq![op] + Seq::empty(), pos + 5),
    ));
    let xs = seq![la] + (seq![lb] + seq![lc]);
    let os = seq![op] + (seq![op] + Seq::empty());
    assert(chain(Fold::Sum, toks, pos, file) == Ok::<(Seq<Ast>, Seq<Ast>, int), crate::utils::Fault>(
        (xs, os, pos + 5),
    ));
    assert(os.len() == 2);
    reveal_with_fuel(left_fold, 3);
    assert(op.with_child(la).with_child(lb).children =~= seq![la, lb]);
    let inner = Ast::binary(AstKind::Sub, la, lb);
    assert(op.with_child(inner).with_child(lc).children =~= seq![inner, lc]);
}

/// Division groups from the left: `a / b / c` is parsed as `(a / b) / c`.
pub proof fn law_division_groups_left(
    toks: Seq<TokenView>,
    pos: int,
    file: Seq<char>,
    a: i64,
    b: i64,
    c: i64,
)
    requires
        token_at(toks, pos) matches Some(TokenView::Int(v, _, _)) && v == a,
        token_at(toks, pos + 1) matches Some(TokenView::Div(_, _)),
        token_at(toks, pos + 2) matches Some(TokenView::Int(v, _, _)) && v == b,
        token_at(toks, pos + 3) matches Some(TokenView::Div(_, _)),
        token_at(toks, pos + 4) matches Some(TokenView::Int(v, _, _)) && v == c,
        ends_product(token_at(toks, pos + 5)),
    ensures
        product(toks, pos, file) == Ok::<(Ast, int), crate::utils::Fault>(
            (
                Ast::binary(
                    AstKind::Div,
                    Ast::binary(
                        AstKind::Div,
                        Ast::leaf(AstKind::Int(a)),
                        Ast::leaf(AstKind::Int(b)),
                    ),
                    Ast::leaf(AstKind::Int(c)),
                ),
                pos + 5,
            ),
        ),
{
    lemma_literal_access(toks, pos, file, a);
    lemma_literal_access(toks, pos + 2, file, b);
    lemma_literal_access(toks, pos + 4, file, c);
    reveal(product);
    reveal(access);
    reveal_with_fuel(chain, 3);
    let la = Ast::leaf(AstKind::Int(a));
    let lb = Ast::leaf(AstKind::Int(b));
    let lc = Ast::leaf(AstKind::Int(c));
    let op = Ast::leaf(AstKind::Div);
    let c3 = chain(Fold::Product, toks, pos + 4, file);
    assert(c3 == Ok::<(Seq<Ast>, Seq<Ast>, int), crate::utils::Fault>(
        (seq![lc], Seq::empty(), pos + 5),
    ));
    let c2 = chain(Fold::Product, toks, pos + 2, file);
    assert(c2 == Ok::<(Seq<Ast>, Seq<Ast>, int), crate::utils::Fault>(
        (seq![lb] + seq![lc], seq![op] + Seq::empty(), pos + 5),
    ));
    let xs = seq![la] + (seq![lb] + seq![lc]);
    let os = seq![op] + (seq![op] + Seq::empty());
    assert(chain(Fold::Product, toks, pos, file) == Ok::<
        (Seq<Ast>, Seq<Ast>, int),
        crate::utils::Fault,
    >((xs, os, pos + 5)));
    assert(os.len() == 2);
    reveal_with_fuel(left_fold, 3);
    assert(op.with_child(la).with_child(lb).children =~= seq![la, lb]);
    let inner = Ast::binary(AstKind::Div, la, lb);
    assert(op.with_child(inner).with_child(lc).children =~= seq![inner, lc]);
}

/// Of two runs of entries, the later decides: a name that the later run
/// holds resolves as in the later run alone, and any other name as in the
/// earlier run alone.
pub proof fn law_later_merge_decides(early: Seq<LookView>, late: Seq<LookView>, name: Seq<char>)
    ensures
        resolve(early + late, name, (early + late).len() as int) == (match resolve(
            late,
            name,
            late.len() as int,
        ) {
            Some(i) => Some(i),
            None => resolve(early, name, early.len() as int),
        }),
    decreases late.len(),
{
    let all = early + late;
    if late.len() == 0 {
        assert(all =~= early);
    } else {
        let shorter = late.drop_last();
        assert(all[all.len() - 1] == late[late.len() - 1]);
        if late[late.len() - 1].name != name {
            law_later_merge_decides(early, shorter, name);
            assert(early + shorter =~= all.drop_last());
            lemma_resolve_prefix(all, all.drop_last(), name, all.len() - 1);
            lemma_resolve_prefix(late, shorter, name, late.len() - 1);
        }
    }
}

/// Resolving among the first entries looks at those entries alone.
pub proof fn lemma_resolve_prefix(a: Seq<LookView>, b: Seq<LookView>, name: Seq<char>, upto: int)
    requires
        0 <= upto <= a.len(),
        upto <= b.len(),
        forall|i: int| 0 <= i < upto ==> a[i] == b[i],
    ensures
        resolve(a, name, upto) == resolve(b, name, upto),
    decreases upto,
{
    if upto > 0 {
        lemma_resolve_prefix(a, b, name, upto - 1);
    }
}

/// Among the entries of a range of globals, a name resolves to the last
/// declaration of that name in the range, and to nothing where the range
/// declares no such name.
pub proof fn law_range_resolves_to_last(
    globals: Seq<Ast>,
    start: int,
    end: int,
    name: Seq<char>,
    upto: int,
)
    requires
        0 <= start <= end <= globals.len(),
        0 <= upto <= end - start,
    ensures
        match resolve(entries_of(globals, start, end), name, upto) {
            Some(i) => {
                &&& start <= i < start + upto
                &&& decl_name(globals[i]) == name
                &&& forall|j: int| i < j < start + upto ==> decl_name(#[trigger] globals[j]) != name
            },
            None => forall|j: int| start <= j < start + upto ==> decl_name(#[trigger] globals[j]) != name,
        },
    decreases upto,
{
    if upto > 0 {
        law_range_resolves_to_last(globals, start, end, name, upto - 1);
    }
}

/// The tree of `a - b - c` evaluates to `(a - b) - c`, where both
/// differences fit into 64 bits and the machine has steps for the five
/// nodes: the evaluation takes those steps and changes nothing else.
pub proof fn law_subtraction_evaluates_from_left(a: i64, b: i64, c: i64, w: World, m: Machine)
    requires
        i64::MIN <= a - b <= i64::MAX,
        i64::MIN <= (a - b) - c <= i64::MAX,
        m.fuel >= 5,
    ensures
        run(
            Ast::binary(
                AstKind::Sub,
                Ast::binary(AstKind::Sub, Ast::leaf(AstKind::Int(a)), Ast::leaf(AstKind::Int(b))),
                Ast::leaf(AstKind::Int(c)),
            ),
            w,
            m,
        ) == Run::Done(
            FlowView::Normal(ValueView::Int(((a - b) - c) as i64)),
            Machine { fuel: (m.fuel - 5) as nat, ..m },
        ),
{
    let inner = Ast::binary(AstKind::Sub, Ast::leaf(AstKind::Int(a)), Ast::leaf(AstKind::Int(b)));
    lemma_literal_run(c, w, Machine { fuel: (m.fuel - 4) as nat, ..m });
    lemma_literal_run(a, w, Machine { fuel: (m.fuel - 2) as nat, ..m });
    lemma_literal_run(b, w, Machine { fuel: (m.fuel - 3) as nat, ..m });
    lemma_binary_run(AstKind::Sub, Ast::leaf(AstKind::Int(a)), Ast::leaf(AstKind::Int(b)), a, b, w, Machine { fuel: (m.fuel - 1) as nat, ..m }, 1, 1);
    lemma_binary_run(AstKind::Sub, inner, Ast::leaf(AstKind::Int(c)), (a - b) as i64, c, w, m, 3, 1);
}

/// The tree of `a / b / c` evaluates to `(a / b) / c`, rounded toward zero
/// at each step, where neither divisor is zero, both quotients fit into
/// 64 bits and the machine has steps for the five nodes.
pub proof fn law_division_evaluates_from_left(a: i64, b: i64, c: i64, w: World, m: Machine)
    requires
        b != 0,
        c != 0,
        i64::MIN <= quotient(a as int, b as int) <= i64::MAX,
        i64::MIN <= quotient(quotient(a as int, b as int), c as int) <= i64::MAX,
        m.fuel >= 5,
    ensures
        run(
            Ast::binary(
                AstKind::Div,
                Ast::binary(AstKind::Div, Ast::leaf(AstKind::Int(a)), Ast::leaf(AstKind::Int(b))),
                Ast::leaf(AstKind::Int(c)),
            ),
            w,
            m,
        ) == Run::Done(
            FlowView::Normal(
                ValueView::Int(quotient(quotient(a as int, b as int), c as int) as i64),
            ),
            Machine { fuel: (m.fuel - 5) as nat, ..m },
        ),
{
    let inner = Ast::binary(AstKind::Div, Ast::leaf(AstKind::Int(a)), Ast::leaf(AstKind::Int(b)));
    lemma_literal_run(c, w, Machine { fuel: (m.fuel - 4) as nat, ..m });
    lemma_literal_run(a, w, Machine { fuel: (m.fuel - 2) as nat, ..m });
    lemma_literal_run(b, w, Machine { fuel: (m.fuel - 3) as nat, ..m });
    lemma_binary_run(AstKind::Div, Ast::leaf(AstKind::Int(a)), Ast::leaf(AstKind::Int(b)), a, b, w, Machine { fuel: (m.fuel - 1) as nat, ..m }, 1, 1);
    lemma_binary_run(AstKind::Div, inner, Ast::leaf(AstKind::Int(c)), quotient(a as int, b as int) as i64, c, w, m, 3, 1);
}

/// An integer literal evaluates to itself in one step.
pub proof fn lemma_literal_run(v: i64, w: World, m: Machine)
    requires
        m.fuel >= 1,
    ensures
        run(Ast::leaf(AstKind::Int(v)), w, m) == Run::Done(
            FlowView::Normal(ValueView::Int(v)),
            Machine { fuel: (m.fuel - 1) as nat, ..m },
        ),
{
    reveal(run);
    reveal(expression_run);
}

/// An arithmetic operator on two operands that evaluate to integers, in
/// `p` and `q` steps and without any other change, evaluates to the result
/// of the operator in one step more, where the result fits into 64 bits.
pub proof fn lemma_binary_run(
    kind: AstKind,
    left: Ast,
    right: Ast,
    x: i64,
    y: i64,
    w: World,
    m: Machine,
    p: nat,
    q: nat,
)
    requires
        kind is Add || kind is Sub || kind is Mul || kind is Div,
        m.fuel >= 1 + p + q,
        run(left, w, Machine { fuel: (m.fuel - 1) as nat, ..m }) == Run::Done(
            FlowView::Normal(ValueView::Int(x)),
            Machine { fuel: (m.fuel - 1 - p) as nat, ..m },
        ),
        run(right, w, Machine { fuel: (m.fuel - 1 - p) as nat, ..m }) == Run::Done(
            FlowView::Normal(ValueView::Int(y)),
            Machine { fuel: (m.fuel - 1 - p - q) as nat, ..m },
        ),
        int_result(kind, x as int, y as int) is Some,
    ensures
        run(Ast::binary(kind, left, right), w, m) == Run::Done(
            FlowView::Normal(ValueView::Int(int_result(kind, x as int, y as int)->0 as i64)),
            Machine { fuel: (m.fuel - 1 - p - q) as nat, ..m },
        ),
{
    reveal(run);
    reveal(expression_run);
    reveal(arith_run);
    reveal(value_run);
    let t = Ast::binary(kind, left, right);
    let m1 = Machine { fuel: (m.fuel - 1) as nat, ..m };
    let m2 = Machine { fuel: (m.fuel - 1 - p) as nat, ..m };
    let m3 = Machine { fuel: (m.fuel - 1 - p - q) as nat, ..m };
    assert(t.children[0] == left);
    assert(t.children[1] == right);
    assert(value_run(left, w, m1) == Run::Done(ValueView::Int(x), m2));
    assert(value_run(right, w, m2) == Run::Done(ValueView::Int(y), m3));
    assert(arith_run(t, w, m1) == Run::Done(
        FlowView::Normal(ValueView::Int(int_result(kind, x as int, y as int)->0 as i64)),
        m3,
    ));
    assert(expression_run(t, w, m1) == arith_run(t, w, m1));
}

} // verus!
