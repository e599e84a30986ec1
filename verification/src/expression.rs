//! The expression parser: recursive descent over the precedence tiers.

use crate::context::Ctx;
use crate::fifo::{queue_add, queue_items, queue_new, queue_remove};
use crate::grammar;
use crate::grammar::{advanced, left_fold, Fold, Parsed, Tier};
use crate::node::{
    all_well_formed, lemma_node_views_drop_first, lemma_well_formed, lemma_node_views_push,
    node_views, Ast, AstKind, Node, NodeType,
};
use crate::reader::{token_at, Reader, ReaderView};
use crate::text::{joined, owned};
use crate::token::{clone_tokens, hole_views, lemma_hole_views, Token};
use crate::utils::ParseError;
use queues::Queue;
use vstd::pervasive::unreached;
use vstd::prelude::*;

verus! {

/// What every parser promises: the reader keeps its tokens; where the
/// grammar yields a tree, the parser returns that tree, the tree is well
/// formed, and the cursor has moved forward to the position that the
/// grammar gives; where the grammar yields a fault, the parser returns that
/// fault.
pub open spec fn parse_post(
    meant: Parsed,
    before: ReaderView,
    after: ReaderView,
    out: Result<Node, ParseError>,
) -> bool {
    &&& after.tokens == before.tokens
    &&& match meant {
        Ok((tree, next)) => {
            &&& out is Ok
            &&& out->Ok_0@ == tree
            &&& after.pos == next
            &&& advanced(before.tokens, before.pos, next)
            &&& tree.well_formed()
        },
        Err(f) => out is Err && out->Err_0@ == f,
    }
}

/// A childless node of an arithmetic kind.
pub open spec fn is_operator(op: Ast) -> bool {
    op.children.len() == 0 && (op.kind is Add || op.kind is Sub || op.kind is Mul || op.kind is Div)
}

/// The operands are well formed, one more than the operators, and every
/// operator is a childless node of an arithmetic kind.
pub open spec fn chain_ok(xs: Seq<Ast>, os: Seq<Ast>) -> bool {
    &&& xs.len() == os.len() + 1
    &&& all_well_formed(xs)
    &&& forall|i: int| 0 <= i < os.len() ==> #[trigger] is_operator(os[i])
}

/// The left fold of a chain is well formed.
pub proof fn lemma_left_fold_well_formed(xs: Seq<Ast>, os: Seq<Ast>, k: int)
    requires
        chain_ok(xs, os),
        0 <= k <= os.len(),
    ensures
        left_fold(xs, os, k).well_formed(),
    decreases k,
{
    if k > 0 {
        lemma_left_fold_well_formed(xs, os, k - 1);
        let t = left_fold(xs, os, k);
        assert(is_operator(os[k - 1]));
        assert(os[k - 1].children =~= Seq::<Ast>::empty());
        assert(t.children =~= seq![left_fold(xs, os, k - 1), xs[k]]);
        assert(xs[k].well_formed());
        lemma_well_formed(t);
    } else {
        assert(xs[0].well_formed());
    }
}

/// A chain read with empty queues folds into a well-formed tree.
proof fn lemma_whole_chain(c: grammar::Chained)
    ensures
        c matches Ok((xs, os, q)) ==> {
            &&& node_views(Seq::<Node>::empty()) + xs == xs
            &&& node_views(Seq::<Node>::empty()) + os == os
            &&& (chain_ok(xs, os) ==> left_fold(xs, os, os.len() as int).well_formed())
        },
{
    if c is Ok {
        let (xs, os, q) = c->Ok_0;
        assert(node_views(Seq::<Node>::empty()) =~= Seq::<Ast>::empty());
        assert(Seq::<Ast>::empty() + xs =~= xs);
        assert(Seq::<Ast>::empty() + os =~= os);
        if chain_ok(xs, os) {
            lemma_left_fold_well_formed(xs, os, os.len() as int);
        }
    }
}

/// A chain of one operand: the head of the operand queue is the fold, and
/// what stays behind is the queue without its head.
proof fn lemma_single(rv: Seq<Ast>, ov: Seq<Ast>, x: Ast)
    ensures
        rv.push(x).len() > 0,
        rv.push(x)[0] == left_fold(rv + seq![x], ov + Seq::<Ast>::empty(), 0),
        rv.push(x).drop_first() == (rv + seq![x]).skip(1),
        ov == (ov + Seq::<Ast>::empty()).skip(0),
        chain_ok(seq![x], Seq::<Ast>::empty()) <== x.well_formed(),
{
    assert(rv.push(x) =~= rv + seq![x]);
    assert(rv.push(x).drop_first() =~= (rv + seq![x]).skip(1));
    assert(ov =~= (ov + Seq::<Ast>::empty()).skip(0));
}

/// One step of the way back. The deeper call has read the operands `xs1`
/// and the operators `os1` behind the operand `x` and the operator `op`, and
/// has left the queues as its contract says. The operator node and the
/// operand that now leave the queues, with the deeper result between them,
/// make the fold of the longer chain, and the queues are left as the
/// contract says of the longer chain.
proof fn lemma_unwind(rv: Seq<Ast>, ov: Seq<Ast>, x: Ast, op: Ast, xs1: Seq<Ast>, os1: Seq<Ast>)
    requires
        xs1.len() == os1.len() + 1,
    ensures
        ({
            let xs = seq![x] + xs1;
            let os = seq![op] + os1;
            let r1 = (rv.push(x) + xs1).skip(xs1.len() as int);
            let o1 = (ov.push(op) + os1).skip(os1.len() as int);
            let deeper = left_fold(rv.push(x) + xs1, ov.push(op) + os1, os1.len() as int);
            &&& r1.len() > 0
            &&& o1.len() > 0
            &&& o1[0].with_child(deeper).with_child(r1[0]) == left_fold(
                rv + xs,
                ov + os,
                os.len() as int,
            )
            &&& r1.drop_first() == (rv + xs).skip(xs.len() as int)
            &&& o1.drop_first() == (ov + os).skip(os.len() as int)
            &&& (chain_ok(xs1, os1) && x.well_formed() && is_operator(op) ==> chain_ok(xs, os))
        }),
{
    let xs = seq![x] + xs1;
    let os = seq![op] + os1;
    assert(rv.push(x) + xs1 =~= rv + xs);
    assert(ov.push(op) + os1 =~= ov + os);
    let r1 = (rv + xs).skip(xs1.len() as int);
    let o1 = (ov + os).skip(os1.len() as int);
    assert(r1.drop_first() =~= (rv + xs).skip(xs.len() as int));
    assert(o1.drop_first() =~= (ov + os).skip(os.len() as int));
    assert(o1[0] == (ov + os)[os.len() - 1]);
    assert(r1[0] == (rv + xs)[os.len() as int]);
    if chain_ok(xs1, os1) && x.well_formed() && is_operator(op) {
        assert forall|i: int| 0 <= i < xs.len() implies #[trigger] xs[i].well_formed() by {
            if i > 0 {
                assert(xs[i] == xs1[i - 1]);
                assert(xs1[i - 1].well_formed());
            }
        }
        assert forall|i: int| 0 <= i < os.len() implies #[trigger] is_operator(os[i]) by {
            if i > 0 {
                assert(os[i] == os1[i - 1]);
                assert(is_operator(os1[i - 1]));
            }
        }
    }
}

/// Parses an expression at the cursor.
pub fn expression(reader: &mut Reader, ctx: &Ctx) -> (out: Result<Node, ParseError>)
    ensures
        parse_post(
            grammar::expression(old(reader)@.tokens, old(reader)@.pos, ctx.filepath@),
            old(reader)@,
            final(reader)@,
            out,
        ),
    decreases old(reader)@.tokens, old(reader)@.tokens.len() - old(reader)@.pos, 22int,
{
    proof {
        reveal(grammar::expression);
        reveal(grammar::binary);
    }
    disjunction(reader, ctx)
}

/// `disjunction`: conjunctions joined by `||`.
fn disjunction(reader: &mut Reader, ctx: &Ctx) -> (out: Result<Node, ParseError>)
    ensures
        parse_post(
            grammar::binary(Tier::Disjunction, old(reader)@.tokens, old(reader)@.pos, ctx.filepath@),
            old(reader)@,
            final(reader)@,
            out,
        ),
    decreases old(reader)@.tokens, old(reader)@.tokens.len() - old(reader)@.pos, 21int,
{
    proof {
        reveal(grammar::binary);
    }
    let left = match conjunction(reader, ctx) {
        Ok(v) => v,
        Err(e) => {
            return Err(e);
        },
    };
    match reader.sym() {
        Some(Token::LogOr(_, _)) => {
            reader.next();
            let right = match disjunction(reader, ctx) {
                Ok(v) => v,
                Err(e) => {
                    return Err(e);
                },
            };
            Ok(Node::binary(NodeType::LogOr, left, right))
        },
        _ => Ok(left),
    }
}

/// `conjunction`: equalities joined by `&&`.
fn conjunction(reader: &mut Reader, ctx: &Ctx) -> (out: Result<Node, ParseError>)
    ensures
        parse_post(
            grammar::binary(Tier::Conjunction, old(reader)@.tokens, old(reader)@.pos, ctx.filepath@),
            old(reader)@,
            final(reader)@,
            out,
        ),
    decreases old(reader)@.tokens, old(reader)@.tokens.len() - old(reader)@.pos, 19int,
{
    proof {
        reveal(grammar::binary);
    }
    let left = match equality(reader, ctx) {
        Ok(v) => v,
        Err(e) => {
            return Err(e);
        },
    };
    match reader.sym() {
        Some(Token::LogAnd(_, _)) => {
            reader.next();
            let right = match conjunction(reader, ctx) {
                Ok(v) => v,
                Err(e) => {
                    return Err(e);
                },
            };
            Ok(Node::binary(NodeType::LogAnd, left, right))
        },
        _ => Ok(left),
    }
}

/// `equality`: one comparison, or two joined by `==`.
fn equality(reader: &mut Reader, ctx: &Ctx) -> (out: Result<Node, ParseError>)
    ensures
        parse_post(
            grammar::binary(Tier::Equality, old(reader)@.tokens, old(reader)@.pos, ctx.filepath@),
            old(reader)@,
            final(reader)@,
            out,
        ),
    decreases old(reader)@.tokens, old(reader)@.tokens.len() - old(reader)@.pos, 17int,
{
    proof {
        reveal(grammar::binary);
    }
    let left = match comparison(reader, ctx) {
        Ok(v) => v,
        Err(e) => {
            return Err(e);
        },
    };
    match reader.sym() {
        Some(Token::Equal(_, _)) => {
            reader.next();
            let right = match comparison(reader, ctx) {
                Ok(v) => v,
                Err(e) => {
                    return Err(e);
                },
            };
            Ok(Node::binary(NodeType::Equal, left, right))
        },
        _ => Ok(left),
    }
}

/// `comparison`: one operand, or two joined by `<`, `>`, `<=` or `>=`.
fn comparison(reader: &mut Reader, ctx: &Ctx) -> (out: Result<Node, ParseError>)
    ensures
        parse_post(
            grammar::binary(Tier::Comparison, old(reader)@.tokens, old(reader)@.pos, ctx.filepath@),
            old(reader)@,
            final(reader)@,
            out,
        ),
    decreases old(reader)@.tokens, old(reader)@.tokens.len() - old(reader)@.pos, 15int,
{
    proof {
        reveal(grammar::binary);
    }
    let left = match bit_or(reader, ctx) {
        Ok(v) => v,
        Err(e) => {
            return Err(e);
        },
    };
    match reader.sym() {
        Some(Token::LessThan(_, _)) => {
            reader.next();
            let right = match bit_or(reader, ctx) {
                Ok(v) => v,
                Err(e) => {
                    return Err(e);
                },
            };
            Ok(Node::binary(NodeType::LessThan, left, right))
        },
        Some(Token::GreaterThan(_, _)) => {
            reader.next();
            let right = match bit_or(reader, ctx) {
                Ok(v) => v,
                Err(e) => {
                    return Err(e);
                },
            };
            Ok(Node::binary(NodeType::GreaterThan, left, right))
        },
        Some(Token::LessOrEq(_, _)) => {
            reader.next();
            let right = match bit_or(reader, ctx) {
                Ok(v) => v,
                Err(e) => {
                    return Err(e);
                },
            };
            Ok(Node::binary(NodeType::LessOrEq, left, right))
        },
        Some(Token::GreaterOrEq(_, _)) => {
            reader.next();
            let right = match bit_or(reader, ctx) {
                Ok(v) => v,
                Err(e) => {
                    return Err(e);
                },
            };
            Ok(Node::binary(NodeType::GreaterOrEq, left, right))
        },
        _ => Ok(left),
    }
}

/// `bit_or`: operands joined by `|`.
fn bit_or(reader: &mut Reader, ctx: &Ctx) -> (out: Result<Node, ParseError>)
    ensures
        parse_post(
            grammar::binary(Tier::BitOr, old(reader)@.tokens, old(reader)@.pos, ctx.filepath@),
            old(reader)@,
            final(reader)@,
            out,
        ),
    decreases old(reader)@.tokens, old(reader)@.tokens.len() - old(reader)@.pos, 13int,
{
    proof {
        reveal(grammar::binary);
    }
    let left = match bit_xor(reader, ctx) {
        Ok(v) => v,
        Err(e) => {
            return Err(e);
        },
    };
    match reader.sym() {
        Some(Token::BitOr(_, _)) => {
            reader.next();
            let right = match bit_or(reader, ctx) {
                Ok(v) => v,
                Err(e) => {
                    return Err(e);
                },
            };
            Ok(Node::binary(NodeType::BitOr, left, right))
        },
        _ => Ok(left),
    }
}

/// `bit_xor`: operands joined by `^`.
fn bit_xor(reader: &mut Reader, ctx: &Ctx) -> (out: Result<Node, ParseError>)
    ensures
        parse_post(
            grammar::binary(Tier::BitXor, old(reader)@.tokens, old(reader)@.pos, ctx.filepath@),
            old(reader)@,
            final(reader)@,
            out,
        ),
    decreases old(reader)@.tokens, old(reader)@.tokens.len() - old(reader)@.pos, 11int,
{
    proof {
        reveal(grammar::binary);
    }
    let left = match bit_and(reader, ctx) {
        Ok(v) => v,
        Err(e) => {
            return Err(e);
        },
    };
    match reader.sym() {
        Some(Token::BitXor(_, _)) => {
            reader.next();
            let right = match bit_xor(reader, ctx) {
                Ok(v) => v,
                Err(e) => {
                    return Err(e);
                },
            };
            Ok(Node::binary(NodeType::BitXor, left, right))
        },
        _ => Ok(left),
    }
}

/// `bit_and`: sums joined by `&`.
fn bit_and(reader: &mut Reader, ctx: &Ctx) -> (out: Result<Node, ParseError>)
    ensures
        parse_post(
            grammar::binary(Tier::BitAnd, old(reader)@.tokens, old(reader)@.pos, ctx.filepath@),
            old(reader)@,
            final(reader)@,
            out,
        ),
    decreases old(reader)@.tokens, old(reader)@.tokens.len() - old(reader)@.pos, 9int,
{
    proof {
        reveal(grammar::binary);
        reveal(grammar::sum);
    }
    let left = match sum(reader, ctx) {
        Ok(v) => v,
        Err(e) => {
            return Err(e);
        },
    };
    match reader.sym() {
        Some(Token::BitAnd(_, _)) => {
            reader.next();
            let right = match bit_and(reader, ctx) {
                Ok(v) => v,
                Err(e) => {
                    return Err(e);
                },
            };
            Ok(Node::binary(NodeType::BitAnd, left, right))
        },
        _ => Ok(left),
    }
}

/// The operator node that the current token makes at a tier, if the token
/// is an operator of the tier.
fn operator_of(fold: &Fold, t: &Option<Token>) -> (out: Option<Node>)
    ensures
        match t {
            Some(t) => match fold.operator(t@) {
                Some(k) => out is Some && out->Some_0@ == Ast::leaf(k),
                None => out is None,
            },
            None => out is None,
        },
{
    match (fold, t) {
        (Fold::Product, Some(Token::Mul(_, _))) => Some(Node::new(NodeType::Mul)),
        (Fold::Product, Some(Token::Div(_, _))) => Some(Node::new(NodeType::Div)),
        (Fold::Sum, Some(Token::Add(_, _))) => Some(Node::new(NodeType::Add)),
        (Fold::Sum, Some(Token::Sub(_, _))) => Some(Node::new(NodeType::Sub)),
        _ => None,
    }
}

/// A tier whose operators group from the left. The operands are put into
/// `righties` and the operator nodes into `ops` on the way down; on the way
/// back every operator node leaves `ops` in turn and takes the tree so far
/// and the next operand from `righties`. With queues that hold `R` and `O`
/// at the start, the result is the left fold over `R` followed by the
/// operands read and `O` followed by the operators read, as far as the
/// operators read reach; what the fold has not used stays in the queues.
fn chain_help(
    fold: &Fold,
    reader: &mut Reader,
    righties: &mut Queue<Node>,
    ops: &mut Queue<Node>,
    ctx: &Ctx,
) -> (out: Result<Node, ParseError>)
    ensures
        final(reader)@.tokens == old(reader)@.tokens,
        match grammar::chain(*fold, old(reader)@.tokens, old(reader)@.pos, ctx.filepath@) {
            Ok((xs, os, q)) => {
                let r = node_views(queue_items(*old(righties))) + xs;
                let o = node_views(queue_items(*old(ops))) + os;
                &&& out is Ok
                &&& final(reader)@.pos == q
                &&& advanced(old(reader)@.tokens, old(reader)@.pos, q)
                &&& chain_ok(xs, os)
                &&& out->Ok_0@ == left_fold(r, o, os.len() as int)
                &&& node_views(queue_items(*final(righties))) == r.skip(xs.len() as int)
                &&& node_views(queue_items(*final(ops))) == o.skip(os.len() as int)
            },
            Err(f) => out is Err && out->Err_0@ == f,
        },
    decreases old(reader)@.tokens, old(reader)@.tokens.len() - old(reader)@.pos, fold.rank(),
{
    proof {
        reveal(grammar::chain);
        reveal(grammar::product);
        reveal(grammar::access);
    }
    let ghost toks = reader@.tokens;
    let ghost rv = node_views(queue_items(*righties));
    let ghost ov = node_views(queue_items(*ops));
    let operand = match fold {
        Fold::Product => access(reader, ctx),
        Fold::Sum => product(reader, ctx),
    };
    let n = match operand {
        Ok(v) => v,
        Err(e) => {
            return Err(e);
        },
    };
    let ghost x = n@;
    let ghost after = reader@.pos;
    proof {
        lemma_node_views_push(queue_items(*righties), n);
    }
    queue_add(righties, n);
    match operator_of(fold, &reader.sym()) {
        Some(opnode) => {
            let ghost op = opnode@;
            proof {
                lemma_node_views_push(queue_items(*ops), opnode);
            }
            queue_add(ops, opnode);
            reader.next();
            let deeper = match chain_help(fold, reader, righties, ops, ctx) {
                Ok(v) => v,
                Err(e) => {
                    return Err(e);
                },
            };
            let ghost rest = grammar::chain(*fold, toks, after + 1, ctx.filepath@)->Ok_0;
            proof {
                lemma_unwind(rv, ov, x, op, rest.0, rest.1);
                lemma_node_views_drop_first(queue_items(*ops));
                lemma_node_views_drop_first(queue_items(*righties));
            }
            match queue_remove(ops) {
                Some(mut node) => match queue_remove(righties) {
                    Some(right) => {
                        node.add_child(deeper);
                        node.add_child(right);
                        Ok(node)
                    },
                    None => unreached(),
                },
                None => unreached(),
            }
        },
        None => {
            proof {
                lemma_single(rv, ov, x);
                lemma_node_views_drop_first(queue_items(*righties));
            }
            match queue_remove(righties) {
                Some(first) => Ok(first),
                None => unreached(),
            }
        },
    }
}

/// `sum`: products joined by `+` and `-`, grouped from the left.
pub fn sum(reader: &mut Reader, ctx: &Ctx) -> (out: Result<Node, ParseError>)
    ensures
        parse_post(
            grammar::sum(old(reader)@.tokens, old(reader)@.pos, ctx.filepath@),
            old(reader)@,
            final(reader)@,
            out,
        ),
    decreases old(reader)@.tokens, old(reader)@.tokens.len() - old(reader)@.pos, 7int,
{
    proof {
        reveal(grammar::sum);
        reveal(grammar::chain);
    }
    let mut righties = queue_new();
    let mut ops = queue_new();
    let ghost c = grammar::chain(Fold::Sum, reader@.tokens, reader@.pos, ctx.filepath@);
    let out = chain_help(&Fold::Sum, reader, &mut righties, &mut ops, ctx);
    proof {
        lemma_whole_chain(c);
    }
    out
}

/// `product`: accesses joined by `*` and `/`, grouped from the left.
pub fn product(reader: &mut Reader, ctx: &Ctx) -> (out: Result<Node, ParseError>)
    ensures
        parse_post(
            grammar::product(old(reader)@.tokens, old(reader)@.pos, ctx.filepath@),
            old(reader)@,
            final(reader)@,
            out,
        ),
    decreases old(reader)@.tokens, old(reader)@.tokens.len() - old(reader)@.pos, 5int,
{
    proof {
        reveal(grammar::product);
        reveal(grammar::chain);
    }
    let mut righties = queue_new();
    let mut ops = queue_new();
    let ghost c = grammar::chain(Fold::Product, reader@.tokens, reader@.pos, ctx.filepath@);
    let out = chain_help(&Fold::Product, reader, &mut righties, &mut ops, ctx);
    proof {
        lemma_whole_chain(c);
    }
    out
}

/// `access`: a term and what is reached from it by `.`.
fn access(reader: &mut Reader, ctx: &Ctx) -> (out: Result<Node, ParseError>)
    ensures
        parse_post(
            grammar::access(old(reader)@.tokens, old(reader)@.pos, ctx.filepath@),
            old(reader)@,
            final(reader)@,
            out,
        ),
    decreases old(reader)@.tokens, old(reader)@.tokens.len() - old(reader)@.pos, 3int,
{
    proof {
        reveal(grammar::access);
        reveal(grammar::term);
        reveal(grammar::access_rest);
    }
    let ghost start = reader@.pos;
    let n = match term(reader, ctx) {
        Ok(v) => v,
        Err(e) => {
            return Err(e);
        },
    };
    access_help(reader, n, ctx, Ghost(start))
}

/// What follows an owner by `.`; without a `.` at the cursor, the owner.
fn access_help(reader: &mut Reader, owner: Node, ctx: &Ctx, Ghost(start): Ghost<int>) -> (out: Result<
    Node,
    ParseError,
>)
    requires
        owner@.well_formed(),
        advanced(old(reader)@.tokens, start, old(reader)@.pos),
    ensures
        final(reader)@.tokens == old(reader)@.tokens,
        match grammar::access_rest(old(reader)@.tokens, old(reader)@.pos, ctx.filepath@, owner@) {
            Ok((tree, next)) => {
                &&& out is Ok
                &&& out->Ok_0@ == tree
                &&& final(reader)@.pos == next
                &&& advanced(old(reader)@.tokens, start, next)
                &&& tree.well_formed()
            },
            Err(f) => out is Err && out->Err_0@ == f,
        },
    decreases old(reader)@.tokens, old(reader)@.tokens.len() - old(reader)@.pos, 2int,
{
    proof {
        reveal(grammar::access_rest);
        reveal(grammar::arglist);
    }
    match reader.sym() {
        Some(Token::Access(_, _)) => match reader.next() {
            Some(Token::Name(name, _, _)) => match reader.next() {
                Some(Token::Paren1(_, _)) => {
                    let args_node = match arglist(reader, ctx) {
                        Ok(v) => v,
                        Err(e) => {
                            return Err(e);
                        },
                    };
                    let call = Node::unary(
                        NodeType::MethodCall(name, Box::new(owner), ctx.filepath.clone()),
                        args_node,
                    );
                    access_help(reader, call, ctx, Ghost(start))
                },
                Some(Token::Decrement(_, _)) => {
                    reader.next();
                    let node = Node::new(NodeType::Name(name));
                    Ok(Node::unary(NodeType::PostDecrement, node))
                },
                Some(Token::Increment(_, _)) => {
                    reader.next();
                    let node = Node::new(NodeType::Name(name));
                    Ok(Node::unary(NodeType::PostIncrement, node))
                },
                _ => {
                    let node = Node::unary(NodeType::Name(name), owner);
                    access_help(reader, node, ctx, Ghost(start))
                },
            },
            Some(x) => {
                let m = joined(owned("Expected name after accessor, got: "), x.text().as_str());
                Err(reader.fault(reader.pos(), m))
            },
            None => Err(reader.fault(reader.pos(), owned("Unexpected end of tokens."))),
        },
        _ => Ok(owner),
    }
}

/// `term`: a literal, a name, a call, a prefix or postfix operator on a
/// term or a name, an expression in round brackets, or a list.
fn term(reader: &mut Reader, ctx: &Ctx) -> (out: Result<Node, ParseError>)
    ensures
        parse_post(
            grammar::term(old(reader)@.tokens, old(reader)@.pos, ctx.filepath@),
            old(reader)@,
            final(reader)@,
            out,
        ),
    decreases old(reader)@.tokens, old(reader)@.tokens.len() - old(reader)@.pos, 1int,
{
    proof {
        reveal(grammar::term);
        reveal(grammar::hole_trees);
        reveal(grammar::expression);
        reveal(grammar::arglist);
        reveal(grammar::list_items);
    }
    let ghost toks = reader@.tokens;
    let ghost pos = reader@.pos;
    match reader.sym() {
        Some(Token::Int(val, _, _)) => {
            reader.next();
            Ok(Node::new(NodeType::Int(val)))
        },
        Some(Token::Double(val, _, _)) => {
            reader.next();
            Ok(Node::new(NodeType::Double(val)))
        },
        Some(Token::Add(_, _)) => Err(
            reader.fault(reader.pos(), owned("'+' is not a prefix operator.")),
        ),
        Some(Token::Sub(_, _)) => {
            reader.next();
            let next = match term(reader, ctx) {
                Ok(v) => v,
                Err(e) => {
                    return Err(e);
                },
            };
            Ok(Node::unary(NodeType::Sub, next))
        },
        Some(Token::Not(_, _)) => {
            reader.next();
            let next = match term(reader, ctx) {
                Ok(v) => v,
                Err(e) => {
                    return Err(e);
                },
            };
            Ok(Node::unary(NodeType::Not, next))
        },
        Some(Token::Str(s, interpols, _, _)) => {
            let ghost holes = hole_views(interpols@);
            let ghost text = s@;
            let mut node = Node::new(NodeType::Str(s));
            let mut k: usize = 0;
            proof {
                lemma_hole_views(interpols@);
            }
            while k < interpols.len()
                invariant
                    k <= interpols.len(),
                    holes == hole_views(interpols@),
                    holes.len() == interpols.len(),
                    0 <= pos < toks.len() <= usize::MAX,
                    toks[pos] is Str,
                    toks[pos]->Str_0 == text,
                    toks[pos]->Str_1 == holes,
                    reader@ == old(reader)@,
                    toks == old(reader)@.tokens,
                    pos == old(reader)@.pos,
                    node@.kind == AstKind::Str(text),
                    all_well_formed(node@.children),
                    grammar::hole_trees(holes, 0, ctx.filepath@, Seq::empty()) == grammar::hole_trees(
                        holes,
                        k as int,
                        ctx.filepath@,
                        node@.children,
                    ),
                decreases interpols.len() - k,
            {
                proof {
                    reveal(grammar::term);
                    reveal(grammar::hole_trees);
                    reveal(grammar::expression);
                    lemma_hole_views(interpols@);
                    assert(decreases_to!(toks => toks[pos]));
                    assert(decreases_to!(toks[pos] => toks[pos]->Str_1));
                    assert(decreases_to!(holes => holes[k as int]));
                }
                let mut r = Reader::new(clone_tokens(&interpols[k]));
                let e = match expression(&mut r, ctx) {
                    Ok(v) => v,
                    Err(e) => {
                        return Err(e);
                    },
                };
                node.add_child(e);
                k += 1;
            }
            reader.next();
            proof {
                lemma_well_formed(node@);
            }
            Ok(node)
        },
        Some(Token::Bool(v, _, _)) => {
            reader.next();
            Ok(Node::new(NodeType::Bool(v)))
        },
        Some(Token::Name(s, _, _)) => match reader.next() {
            Some(Token::Increment(_, _)) => {
                reader.next();
                let node = Node::new(NodeType::Name(s));
                Ok(Node::unary(NodeType::PostIncrement, node))
            },
            Some(Token::Decrement(_, _)) => {
                reader.next();
                let node = Node::new(NodeType::Name(s));
                Ok(Node::unary(NodeType::PostDecrement, node))
            },
            Some(Token::Paren1(_, _)) => {
                let args_node = match arglist(reader, ctx) {
                    Ok(v) => v,
                    Err(e) => {
                        return Err(e);
                    },
                };
                Ok(Node::unary(NodeType::FunCall(s), args_node))
            },
            _ => Ok(Node::new(NodeType::Name(s))),
        },
        Some(Token::Increment(_, _)) => match reader.next() {
            Some(Token::Name(name, _, _)) => {
                reader.next();
                Ok(Node::unary(NodeType::PreIncrement, Node::new(NodeType::Name(name))))
            },
            Some(x) => {
                let m = joined(owned("Invalid operand for increment: "), x.text().as_str());
                Err(reader.fault(reader.pos(), m))
            },
            None => Err(reader.fault(reader.pos(), owned("Unexpected end of tokens."))),
        },
        Some(Token::Decrement(_, _)) => match reader.next() {
            Some(Token::Name(name, _, _)) => {
                reader.next();
                Ok(Node::unary(NodeType::PreDecrement, Node::new(NodeType::Name(name))))
            },
            Some(x) => {
                let m = joined(owned("Invalid operand for decrement: "), x.text().as_str());
                Err(reader.fault(reader.pos(), m))
            },
            None => Err(reader.fault(reader.pos(), owned("Unexpected end of tokens."))),
        },
        Some(Token::Paren1(_, _)) => {
            reader.next();
            let wnode = match expression(reader, ctx) {
                Ok(v) => v,
                Err(e) => {
                    return Err(e);
                },
            };
            match reader.skip(")") {
                Ok(_) => Ok(wnode),
                Err(m) => Err(reader.fault(reader.pos(), m)),
            }
        },
        Some(Token::Brack1(_, _)) => match reader.next() {
            Some(Token::Brack2(_, _)) => {
                reader.next();
                Ok(Node::new(NodeType::List))
            },
            _ => list_entries(reader, ctx, Ghost(pos)),
        },
        Some(x) => {
            let m = joined(owned("Unexpected token: "), x.text().as_str());
            Err(reader.fault(reader.pos(), m))
        },
        None => Err(reader.fault(reader.pos(), owned("Unexpected end of tokens."))),
    }
}

/// The entries of a list behind its opening bracket, up to the closing one.
fn list_entries(reader: &mut Reader, ctx: &Ctx, Ghost(start): Ghost<int>) -> (out: Result<
    Node,
    ParseError,
>)
    requires
        advanced(old(reader)@.tokens, start, old(reader)@.pos),
    ensures
        final(reader)@.tokens == old(reader)@.tokens,
        match grammar::list_items(
            old(reader)@.tokens,
            old(reader)@.pos,
            ctx.filepath@,
            Seq::empty(),
            false,
        ) {
            Ok((tree, next)) => {
                &&& out is Ok
                &&& out->Ok_0@ == tree
                &&& final(reader)@.pos == next
                &&& advanced(old(reader)@.tokens, start, next)
                &&& tree.well_formed()
            },
            Err(f) => out is Err && out->Err_0@ == f,
        },
    decreases old(reader)@.tokens, old(reader)@.tokens.len() - old(reader)@.pos, 23int,
{
    proof {
        reveal(grammar::list_items);
        reveal(grammar::expression);
    }
    let ghost toks = reader@.tokens;
    let ghost first = reader@.pos;
    let mut list_node = Node::new(NodeType::List);
    let mut expect_sep = false;
    loop
        invariant
            reader@.tokens == toks,
            toks == old(reader)@.tokens,
            first == old(reader)@.pos,
            first <= reader@.pos <= toks.len(),
            advanced(toks, start, reader@.pos),
            list_node@.kind == AstKind::List,
            all_well_formed(list_node@.children),
            grammar::list_items(toks, first, ctx.filepath@, Seq::empty(), false) == grammar::list_items(
                toks,
                reader@.pos,
                ctx.filepath@,
                list_node@.children,
                expect_sep,
            ),
        decreases toks.len() - reader@.pos, if expect_sep { 0int } else { 1int },
    {
        proof {
            reveal(grammar::list_items);
            reveal(grammar::expression);
        }
        if expect_sep {
            match reader.sym() {
                Some(Token::Comma(_, _)) => {
                    reader.next();
                    expect_sep = false;
                },
                Some(Token::Brack2(_, _)) => {
                    reader.next();
                    proof {
                        lemma_well_formed(list_node@);
                    }
                    return Ok(list_node);
                },
                Some(x) => {
                    let m = joined(owned("Unexpected token when parsing list: "), x.text().as_str());
                    return Err(reader.fault(reader.pos(), m));
                },
                None => {
                    return Err(reader.fault(reader.pos(), owned("Unexpected end of tokens.")));
                },
            }
        } else {
            let entry = match expression(reader, ctx) {
                Ok(v) => v,
                Err(e) => {
                    return Err(e);
                },
            };
            list_node.add_child(entry);
            expect_sep = true;
        }
    }
}

/// Parses an argument list: expressions separated by commas, in round
/// brackets. The cursor must stand on the opening bracket.
pub fn arglist(reader: &mut Reader, ctx: &Ctx) -> (out: Result<Node, ParseError>)
    ensures
        parse_post(
            grammar::arglist(old(reader)@.tokens, old(reader)@.pos, ctx.filepath@),
            old(reader)@,
            final(reader)@,
            out,
        ),
        out matches Ok(n) ==> n@.kind is ArgList,
    decreases old(reader)@.tokens, old(reader)@.tokens.len() - old(reader)@.pos, 24int,
{
    proof {
        reveal(grammar::arglist);
        reveal(grammar::arg_items);
        reveal(grammar::expression);
    }
    let ghost toks = reader@.tokens;
    let ghost start = reader@.pos;
    match reader.sym() {
        Some(Token::Paren1(_, _)) => {
            let mut node = Node::new(NodeType::ArgList);
            let mut expect_comma = false;
            reader.next();
            while reader.more()
                invariant
                    reader@.tokens == toks,
                    toks == old(reader)@.tokens,
                    start == old(reader)@.pos,
                    start < reader@.pos <= toks.len(),
                    token_at(toks, start) is Some,
                    toks[start] is Paren1,
                    node@.kind == AstKind::ArgList,
                    all_well_formed(node@.children),
                    grammar::arg_items(toks, start + 1, ctx.filepath@, Seq::empty(), false)
                        == grammar::arg_items(
                        toks,
                        reader@.pos,
                        ctx.filepath@,
                        node@.children,
                        expect_comma,
                    ),
                decreases toks.len() - reader@.pos,
            {
                proof {
                    reveal(grammar::arglist);
                    reveal(grammar::arg_items);
                    reveal(grammar::expression);
                }
                match reader.sym() {
                    Some(Token::Paren2(_, _)) => {
                        reader.next();
                        proof {
                            lemma_well_formed(node@);
                        }
                        return Ok(node);
                    },
                    Some(Token::Comma(_, _)) => {
                        if !expect_comma {
                            return Err(
                                reader.fault(
                                    reader.pos(),
                                    owned("Unexpected separator in arg list: ','."),
                                ),
                            );
                        }
                        reader.next();
                        expect_comma = false;
                    },
                    _ => {
                        if expect_comma {
                            return Err(
                                reader.fault(reader.pos(), owned("Expected separator in arg list.")),
                            );
                        }
                        let arg = match expression(reader, ctx) {
                            Ok(v) => v,
                            Err(e) => {
                                return Err(e);
                            },
                        };
                        node.add_child(arg);
                        expect_comma = true;
                    },
                }
            }
            Err(reader.fault(reader.pos(), owned("Unexpected end of tokens in arg list.")))
        },
        _ => Err(reader.fault(reader.pos(), owned("Expected start of arglist: '('."))),
    }
}

} // verus!
