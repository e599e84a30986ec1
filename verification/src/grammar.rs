//! The grammar, as mathematical functions from a token sequence and a
//! position to a tree and the position behind it, or to a fault.
//!
//! Every function reads the tokens from `pos` on and never looks at where a
//! token stands in the source. A successful parse always ends behind where
//! it began; the functions test this (`advanced`) before they go on, which
//! makes their recursion well founded, and the parsers prove that the test
//! never fails.

use crate::node::{Ast, AstKind};
use crate::object::{ClassView, FunctionView, ParamView};
use crate::reader::{expect_outcome, token_at};
use crate::token::TokenView;
use crate::utils::{fault_at, Fault};
use vstd::prelude::*;

verus! {

/// A tree and the position behind it, or the reason why there is none.
pub type Parsed = Result<(Ast, int), Fault>;

/// The operands and operator nodes of a chain, and the position behind it.
pub type Chained = Result<(Seq<Ast>, Seq<Ast>, int), Fault>;

/// The fault of a parser that stands still. No input produces it.
pub open spec fn stalled(toks: Seq<TokenView>, pos: int) -> Fault {
    fault_at(toks, pos, "The parser made no progress."@)
}

/// `p` lies behind `pos` and not behind the end of the tokens.
pub open spec fn advanced(toks: Seq<TokenView>, pos: int, p: int) -> bool {
    pos < p <= toks.len()
}

/// The position behind the token at `pos`, which must print as `want`.
pub open spec fn skip_to(toks: Seq<TokenView>, pos: int, want: Seq<char>) -> Result<int, Fault> {
    match expect_outcome(toks, pos, want) {
        Ok(_) => Ok(pos + 1),
        Err(m) => Err(fault_at(toks, pos, m)),
    }
}

/// The binary operators that take one operator at most, from the tightest.
pub enum Tier {
    BitAnd,
    BitXor,
    BitOr,
    Comparison,
    Equality,
    Conjunction,
    Disjunction,
}

impl Tier {
    pub open spec fn rank(self) -> int {
        match self {
            Tier::BitAnd => 9,
            Tier::BitXor => 11,
            Tier::BitOr => 13,
            Tier::Comparison => 15,
            Tier::Equality => 17,
            Tier::Conjunction => 19,
            Tier::Disjunction => 21,
        }
    }

    /// The kind of node that the token makes at this tier, if any.
    pub open spec fn operator(self, t: TokenView) -> Option<AstKind> {
        match (self, t) {
            (Tier::BitAnd, TokenView::BitAnd(_, _)) => Some(AstKind::BitAnd),
            (Tier::BitXor, TokenView::BitXor(_, _)) => Some(AstKind::BitXor),
            (Tier::BitOr, TokenView::BitOr(_, _)) => Some(AstKind::BitOr),
            (Tier::Comparison, TokenView::LessThan(_, _)) => Some(AstKind::LessThan),
            (Tier::Comparison, TokenView::GreaterThan(_, _)) => Some(AstKind::GreaterThan),
            (Tier::Comparison, TokenView::LessOrEq(_, _)) => Some(AstKind::LessOrEq),
            (Tier::Comparison, TokenView::GreaterOrEq(_, _)) => Some(AstKind::GreaterOrEq),
            (Tier::Equality, TokenView::Equal(_, _)) => Some(AstKind::Equal),
            (Tier::Conjunction, TokenView::LogAnd(_, _)) => Some(AstKind::LogAnd),
            (Tier::Disjunction, TokenView::LogOr(_, _)) => Some(AstKind::LogOr),
            _ => None,
        }
    }
}

/// The two tiers whose operators associate to the left.
pub enum Fold {
    Product,
    Sum,
}

impl Fold {
    pub open spec fn rank(self) -> int {
        match self {
            Fold::Product => 4,
            Fold::Sum => 6,
        }
    }

    /// The kind of node that the token makes at this tier, if any.
    pub open spec fn operator(self, t: TokenView) -> Option<AstKind> {
        match (self, t) {
            (Fold::Product, TokenView::Mul(_, _)) => Some(AstKind::Mul),
            (Fold::Product, TokenView::Div(_, _)) => Some(AstKind::Div),
            (Fold::Sum, TokenView::Add(_, _)) => Some(AstKind::Add),
            (Fold::Sum, TokenView::Sub(_, _)) => Some(AstKind::Sub),
            _ => None,
        }
    }
}

/// The tree of `xs[0] o[0] xs[1] ... o[k-1] xs[k]`, read from the left: each
/// operator node takes the tree so far and the next operand as children.
pub open spec fn left_fold(xs: Seq<Ast>, os: Seq<Ast>, k: int) -> Ast
    decreases k,
{
    if k <= 0 {
        xs[0]
    } else {
        os[k - 1].with_child(left_fold(xs, os, k - 1)).with_child(xs[k])
    }
}

/// The tree of a whole chain.
pub open spec fn folded(c: Chained) -> Parsed {
    match c {
        Ok((xs, os, p)) => Ok((left_fold(xs, os, os.len() as int), p)),
        Err(f) => Err(f),
    }
}

/// `term`: a literal, a name (with an argument list it is a call, with `++`
/// or `--` a post-increment or post-decrement), a prefix `-`, `!`, `++` or
/// `--`, an expression in round brackets, or a list in square brackets.
#[verifier::opaque]
pub open spec fn term(toks: Seq<TokenView>, pos: int, file: Seq<char>) -> Parsed
    decreases toks, toks.len() - pos, 1int,
{
    match token_at(toks, pos) {
        None => Err(fault_at(toks, pos, "Unexpected end of tokens."@)),
        Some(t) => match t {
            TokenView::Int(v, _, _) => Ok((Ast::leaf(AstKind::Int(v)), pos + 1)),
            TokenView::Double(s, _, _) => Ok((Ast::leaf(AstKind::Double(s)), pos + 1)),
            TokenView::Bool(b, _, _) => Ok((Ast::leaf(AstKind::Bool(b)), pos + 1)),
            TokenView::Add(_, _) => Err(fault_at(toks, pos, "'+' is not a prefix operator."@)),
            TokenView::Sub(_, _) => match term(toks, pos + 1, file) {
                Ok((n, p)) => Ok((Ast::unary(AstKind::Sub, n), p)),
                Err(f) => Err(f),
            },
            TokenView::Not(_, _) => match term(toks, pos + 1, file) {
                Ok((n, p)) => Ok((Ast::unary(AstKind::Not, n), p)),
                Err(f) => Err(f),
            },
            TokenView::Str(s, holes, _, _) => match hole_trees(holes, 0, file, Seq::empty()) {
                Ok(children) => Ok((Ast { kind: AstKind::Str(s), children }, pos + 1)),
                Err(f) => Err(f),
            },
            TokenView::Name(s, _, _) => match token_at(toks, pos + 1) {
                Some(TokenView::Increment(_, _)) => Ok(
                    (Ast::unary(AstKind::PostIncrement, Ast::leaf(AstKind::Name(s))), pos + 2),
                ),
                Some(TokenView::Decrement(_, _)) => Ok(
                    (Ast::unary(AstKind::PostDecrement, Ast::leaf(AstKind::Name(s))), pos + 2),
                ),
                Some(TokenView::Paren1(_, _)) => match arglist(toks, pos + 1, file) {
                    Ok((args, p)) => Ok((Ast::unary(AstKind::FunCall(s), args), p)),
                    Err(f) => Err(f),
                },
                _ => Ok((Ast::leaf(AstKind::Name(s)), pos + 1)),
            },
            TokenView::Increment(_, _) => match token_at(toks, pos + 1) {
                Some(TokenView::Name(s, _, _)) => Ok(
                    (Ast::unary(AstKind::PreIncrement, Ast::leaf(AstKind::Name(s))), pos + 2),
                ),
                Some(x) => Err(
                    fault_at(toks, pos + 1, "Invalid operand for increment: "@ + x.text()),
                ),
                None => Err(fault_at(toks, pos + 1, "Unexpected end of tokens."@)),
            },
            TokenView::Decrement(_, _) => match token_at(toks, pos + 1) {
                Some(TokenView::Name(s, _, _)) => Ok(
                    (Ast::unary(AstKind::PreDecrement, Ast::leaf(AstKind::Name(s))), pos + 2),
                ),
                Some(x) => Err(
                    fault_at(toks, pos + 1, "Invalid operand for decrement: "@ + x.text()),
                ),
                None => Err(fault_at(toks, pos + 1, "Unexpected end of tokens."@)),
            },
            TokenView::Paren1(_, _) => match expression(toks, pos + 1, file) {
                Ok((w, p)) => match skip_to(toks, p, ")"@) {
                    Ok(q) => Ok((w, q)),
                    Err(f) => Err(f),
                },
                Err(f) => Err(f),
            },
            TokenView::Brack1(_, _) => match token_at(toks, pos + 1) {
                Some(TokenView::Brack2(_, _)) => Ok((Ast::leaf(AstKind::List), pos + 2)),
                _ => list_items(toks, pos + 1, file, Seq::empty(), false),
            },
            _ => Err(fault_at(toks, pos, "Unexpected token: "@ + t.text())),
        },
    }
}

/// The expressions in the holes of a string literal from hole `k` on, each
/// read from the start of its own token sequence, behind those in `acc`.
#[verifier::opaque]
pub open spec fn hole_trees(holes: Seq<Seq<TokenView>>, k: int, file: Seq<char>, acc: Seq<Ast>) -> Result<
    Seq<Ast>,
    Fault,
>
    decreases holes, holes.len() - k, 0int,
{
    if 0 <= k < holes.len() {
        match expression(holes[k], 0, file) {
            Ok((e, _)) => hole_trees(holes, k + 1, file, acc.push(e)),
            Err(f) => Err(f),
        }
    } else {
        Ok(acc)
    }
}

/// The rest of a list in square brackets: expressions separated by commas,
/// up to the closing bracket.
#[verifier::opaque]
pub open spec fn list_items(
    toks: Seq<TokenView>,
    pos: int,
    file: Seq<char>,
    acc: Seq<Ast>,
    expect_sep: bool,
) -> Parsed
    decreases toks, toks.len() - pos, 23int,
{
    if expect_sep {
        match token_at(toks, pos) {
            Some(TokenView::Comma(_, _)) => list_items(toks, pos + 1, file, acc, false),
            Some(TokenView::Brack2(_, _)) => Ok((Ast { kind: AstKind::List, children: acc }, pos + 1)),
            Some(x) => Err(
                fault_at(toks, pos, "Unexpected token when parsing list: "@ + x.text()),
            ),
            None => Err(fault_at(toks, pos, "Unexpected end of tokens."@)),
        }
    } else {
        match expression(toks, pos, file) {
            Ok((e, p)) => if advanced(toks, pos, p) {
                list_items(toks, p, file, acc.push(e), true)
            } else {
                Err(stalled(toks, pos))
            },
            Err(f) => Err(f),
        }
    }
}

/// `argList`: expressions separated by commas, in round brackets.
#[verifier::opaque]
pub open spec fn arglist(toks: Seq<TokenView>, pos: int, file: Seq<char>) -> Parsed
    decreases toks, toks.len() - pos, 24int,
{
    match token_at(toks, pos) {
        Some(TokenView::Paren1(_, _)) => arg_items(toks, pos + 1, file, Seq::empty(), false),
        _ => Err(fault_at(toks, pos, "Expected start of arglist: '('."@)),
    }
}

/// The rest of an argument list behind the opening bracket.
#[verifier::opaque]
pub open spec fn arg_items(
    toks: Seq<TokenView>,
    pos: int,
    file: Seq<char>,
    acc: Seq<Ast>,
    expect_comma: bool,
) -> Parsed
    decreases toks, toks.len() - pos, 23int,
{
    if 0 <= pos && pos + 1 < toks.len() {
        match toks[pos] {
            TokenView::Paren2(_, _) => Ok((Ast { kind: AstKind::ArgList, children: acc }, pos + 1)),
            TokenView::Comma(_, _) => if expect_comma {
                arg_items(toks, pos + 1, file, acc, false)
            } else {
                Err(fault_at(toks, pos, "Unexpected separator in arg list: ','."@))
            },
            _ => if expect_comma {
                Err(fault_at(toks, pos, "Expected separator in arg list."@))
            } else {
                match expression(toks, pos, file) {
                    Ok((a, p)) => if advanced(toks, pos, p) {
                        arg_items(toks, p, file, acc.push(a), true)
                    } else {
                        Err(stalled(toks, pos))
                    },
                    Err(f) => Err(f),
                }
            },
        }
    } else {
        Err(fault_at(toks, pos, "Unexpected end of tokens in arg list."@))
    }
}

/// `access`: a term and what is reached from it by `.`.
#[verifier::opaque]
pub open spec fn access(toks: Seq<TokenView>, pos: int, file: Seq<char>) -> Parsed
    decreases toks, toks.len() - pos, 3int,
{
    match term(toks, pos, file) {
        Ok((n, p)) => if advanced(toks, pos, p) {
            access_rest(toks, p, file, n)
        } else {
            Err(stalled(toks, pos))
        },
        Err(f) => Err(f),
    }
}

/// What follows an owner: `.name(args)` is a method call on it, `.name` a
/// member of it, and both may be followed by more; `.name++` and `.name--`
/// end the chain.
#[verifier::opaque]
pub open spec fn access_rest(toks: Seq<TokenView>, pos: int, file: Seq<char>, owner: Ast) -> Parsed
    decreases toks, toks.len() - pos, 2int,
{
    match token_at(toks, pos) {
        Some(TokenView::Access(_, _)) => match token_at(toks, pos + 1) {
            Some(TokenView::Name(name, _, _)) => match token_at(toks, pos + 2) {
                Some(TokenView::Paren1(_, _)) => match arglist(toks, pos + 2, file) {
                    Ok((args, q)) => if advanced(toks, pos, q) {
                        access_rest(
                            toks,
                            q,
                            file,
                            Ast::unary(AstKind::MethodCall(name, Box::new(owner), file), args),
                        )
                    } else {
                        Err(stalled(toks, pos))
                    },
                    Err(f) => Err(f),
                },
                Some(TokenView::Decrement(_, _)) => Ok(
                    (Ast::unary(AstKind::PostDecrement, Ast::leaf(AstKind::Name(name))), pos + 3),
                ),
                Some(TokenView::Increment(_, _)) => Ok(
                    (Ast::unary(AstKind::PostIncrement, Ast::leaf(AstKind::Name(name))), pos + 3),
                ),
                _ => access_rest(toks, pos + 2, file, Ast::unary(AstKind::Name(name), owner)),
            },
            Some(x) => Err(
                fault_at(toks, pos + 1, "Expected name after accessor, got: "@ + x.text()),
            ),
            None => Err(fault_at(toks, pos + 1, "Unexpected end of tokens."@)),
        },
        _ => Ok((owner, pos)),
    }
}

/// The operands of a left-associative tier and the operators between them:
/// an operand, then as long as an operator of the tier follows, that
/// operator and another operand.
#[verifier::opaque]
pub open spec fn chain(fold: Fold, toks: Seq<TokenView>, pos: int, file: Seq<char>) -> Chained
    decreases toks, toks.len() - pos, fold.rank(),
{
    let first = match fold {
        Fold::Product => access(toks, pos, file),
        Fold::Sum => product(toks, pos, file),
    };
    match first {
        Err(f) => Err(f),
        Ok((x, p)) => match token_at(toks, p) {
            Some(t) => if fold.operator(t) is Some && advanced(toks, pos, p) {
                match chain(fold, toks, p + 1, file) {
                    Ok((xs, os, q)) => Ok(
                        (seq![x] + xs, seq![Ast::leaf(fold.operator(t)->0)] + os, q),
                    ),
                    Err(f) => Err(f),
                }
            } else {
                Ok((seq![x], Seq::empty(), p))
            },
            None => Ok((seq![x], Seq::empty(), p)),
        },
    }
}

/// `product`: accesses joined by `*` and `/`, grouped from the left.
#[verifier::opaque]
pub open spec fn product(toks: Seq<TokenView>, pos: int, file: Seq<char>) -> Parsed
    decreases toks, toks.len() - pos, 5int,
{
    folded(chain(Fold::Product, toks, pos, file))
}

/// `sum`: products joined by `+` and `-`, grouped from the left.
#[verifier::opaque]
pub open spec fn sum(toks: Seq<TokenView>, pos: int, file: Seq<char>) -> Parsed
    decreases toks, toks.len() - pos, 7int,
{
    folded(chain(Fold::Sum, toks, pos, file))
}

/// One of the tiers from `&` up to `||`: the next tighter tier on the left,
/// then at most one operator of this tier and a right operand, which is
/// read at this tier again where the tier nests to the right and at the
/// next tighter tier where it does not.
#[verifier::opaque]
pub open spec fn binary(tier: Tier, toks: Seq<TokenView>, pos: int, file: Seq<char>) -> Parsed
    decreases toks, toks.len() - pos, tier.rank(),
{
    let left = match tier {
        Tier::BitAnd => sum(toks, pos, file),
        Tier::BitXor => binary(Tier::BitAnd, toks, pos, file),
        Tier::BitOr => binary(Tier::BitXor, toks, pos, file),
        Tier::Comparison => binary(Tier::BitOr, toks, pos, file),
        Tier::Equality => binary(Tier::Comparison, toks, pos, file),
        Tier::Conjunction => binary(Tier::Equality, toks, pos, file),
        Tier::Disjunction => binary(Tier::Conjunction, toks, pos, file),
    };
    match left {
        Err(f) => Err(f),
        Ok((l, p)) => match token_at(toks, p) {
            Some(t) => if tier.operator(t) is Some && advanced(toks, pos, p) {
                let right = match tier {
                    Tier::Comparison => binary(Tier::BitOr, toks, p + 1, file),
                    Tier::Equality => binary(Tier::Comparison, toks, p + 1, file),
                    _ => binary(tier, toks, p + 1, file),
                };
                match right {
                    Ok((r, q)) => Ok((Ast::binary(tier.operator(t)->0, l, r), q)),
                    Err(f) => Err(f),
                }
            } else {
                Ok((l, p))
            },
            None => Ok((l, p)),
        },
    }
}

/// `expression`: the loosest tier.
#[verifier::opaque]
pub open spec fn expression(toks: Seq<TokenView>, pos: int, file: Seq<char>) -> Parsed
    decreases toks, toks.len() - pos, 22int,
{
    binary(Tier::Disjunction, toks, pos, file)
}

/// A condition and a body, and the position behind them.
pub type Guarded = Result<(Ast, Ast, int), Fault>;

/// `paramList`: names in round brackets, separated by commas where the
/// writer put any. A type before a name is a name like any other.
pub open spec fn paramlist(toks: Seq<TokenView>, pos: int) -> Parsed {
    match token_at(toks, pos) {
        Some(TokenView::Paren1(_, _)) => param_items(toks, pos + 1, Seq::empty(), false, false),
        _ => Err(
            fault_at(
                toks,
                if pos > 0 {
                    pos - 1
                } else {
                    0
                },
                "A function declaration needs an explicit list of parameters."@,
            ),
        ),
    }
}

/// The parameter list of a constructor, which may also hold `this.name`.
pub open spec fn constructor_paramlist(toks: Seq<TokenView>, pos: int) -> Parsed {
    match token_at(toks, pos) {
        Some(TokenView::Paren1(_, _)) => param_items(toks, pos + 1, Seq::empty(), false, true),
        _ => Err(
            fault_at(
                toks,
                if pos > 0 {
                    pos - 1
                } else {
                    0
                },
                "A function declaration needs an explicit list of parameters."@,
            ),
        ),
    }
}

/// The rest of a parameter list behind the opening bracket. With
/// `with_this`, `this.name` is a parameter that initialises a field.
#[verifier::opaque]
pub open spec fn param_items(
    toks: Seq<TokenView>,
    pos: int,
    acc: Seq<Ast>,
    expect_comma: bool,
    with_this: bool,
) -> Parsed
    decreases toks.len() - pos,
{
    if 0 <= pos && pos + 1 < toks.len() {
        match toks[pos] {
            TokenView::Paren2(_, _) => Ok((Ast { kind: AstKind::ParamList, children: acc }, pos + 1)),
            TokenView::Comma(_, _) => if expect_comma {
                param_items(toks, pos + 1, acc, false, with_this)
            } else if with_this {
                Err(fault_at(toks, pos, "Expected an identifier, but got ','."@))
            } else {
                Err(fault_at(toks, pos, "Unexpected separator in parameter list: ','."@))
            },
            TokenView::Name(s, _, _) => param_items(
                toks,
                pos + 1,
                acc.push(Ast::leaf(AstKind::Name(s))),
                true,
                with_this,
            ),
            TokenView::This(_, _) => if with_this {
                match skip_to(toks, pos + 1, "."@) {
                    Err(f) => Err(f),
                    Ok(_) => match token_at(toks, pos + 2) {
                        Some(TokenView::Name(s, _, _)) => param_items(
                            toks,
                            pos + 3,
                            acc.push(Ast::leaf(AstKind::ThisFieldInit(s))),
                            true,
                            with_this,
                        ),
                        Some(x) => Err(
                            fault_at(toks, pos + 2, "Expected identifier. Got "@ + x.text()),
                        ),
                        None => Err(fault_at(toks, pos + 2, "Unexpected end of tokens."@)),
                    },
                }
            } else {
                Err(fault_at(toks, pos, "Unexpected token when reading parameters."@))
            },
            _ => Err(fault_at(toks, pos, "Unexpected token when reading parameters."@)),
        }
    } else {
        Err(fault_at(toks, pos, "Unexpected end of tokens in parameter list."@))
    }
}

/// `block`, behind its opening brace: statements up to the closing brace.
/// A `;` behind a statement belongs to it; a `;` alone is skipped.
#[verifier::opaque]
pub open spec fn block(toks: Seq<TokenView>, pos: int, file: Seq<char>) -> Parsed
    decreases toks, toks.len() - pos, 40int,
{
    block_items(toks, pos, file, Seq::empty())
}

/// The rest of a block behind the statements in `acc`.
#[verifier::opaque]
pub open spec fn block_items(toks: Seq<TokenView>, pos: int, file: Seq<char>, acc: Seq<Ast>) -> Parsed
    decreases toks, toks.len() - pos, 39int,
{
    if 0 <= pos && pos + 1 < toks.len() {
        match toks[pos] {
            TokenView::Block2(_, _) => Ok((Ast { kind: AstKind::Block, children: acc }, pos + 1)),
            TokenView::End => Err(fault_at(toks, pos, "Unexpected end of tokens in block."@)),
            TokenView::EndSt(_, _) => block_items(toks, pos + 1, file, acc),
            _ => match terminated_statement(toks, pos, file) {
                Ok((s, p)) => if advanced(toks, pos, p) {
                    block_items(toks, p, file, acc.push(s))
                } else {
                    Err(stalled(toks, pos))
                },
                Err(f) => Err(f),
            },
        }
    } else {
        Err(fault_at(toks, pos, "Unexpected end of tokens in block."@))
    }
}

/// A statement and the `;` behind it, if there is one.
#[verifier::opaque]
pub open spec fn terminated_statement(toks: Seq<TokenView>, pos: int, file: Seq<char>) -> Parsed
    decreases toks, toks.len() - pos, 29int,
{
    match statement(toks, pos, file) {
        Ok((s, p)) => match token_at(toks, p) {
            Some(TokenView::EndSt(_, _)) => Ok((s, p + 1)),
            _ => Ok((s, p)),
        },
        Err(f) => Err(f),
    }
}

/// `( expression ) { block }`: a condition and the body that it guards.
#[verifier::opaque]
pub open spec fn guarded_block(toks: Seq<TokenView>, pos: int, file: Seq<char>) -> Guarded
    decreases toks, toks.len() - pos, 41int,
{
    match skip_to(toks, pos, "("@) {
        Err(f) => Err(f),
        Ok(e1) => match expression(toks, e1, file) {
            Err(f) => Err(f),
            Ok((cond, e2)) => match skip_to(toks, e2, ")"@) {
                Err(f) => Err(f),
                Ok(e3) => match skip_to(toks, e3, "{"@) {
                    Err(f) => Err(f),
                    Ok(e4) => if advanced(toks, pos, e4) {
                        match block(toks, e4, file) {
                            Ok((body, e5)) => Ok((cond, body, e5)),
                            Err(f) => Err(f),
                        }
                    } else {
                        Err(stalled(toks, pos))
                    },
                },
            },
        },
    }
}

/// A parameter list, an opening brace and a block: the parameters and the
/// body of a function.
#[verifier::opaque]
pub open spec fn function_parts(toks: Seq<TokenView>, pos: int, file: Seq<char>) -> Guarded
    decreases toks, toks.len() - pos, 41int,
{
    match paramlist(toks, pos) {
        Err(f) => Err(f),
        Ok((params, e1)) => match skip_to(toks, e1, "{"@) {
            Err(f) => Err(f),
            Ok(e2) => if advanced(toks, pos, e2) {
                match block(toks, e2, file) {
                    Ok((body, e3)) => Ok((params, body, e3)),
                    Err(f) => Err(f),
                }
            } else {
                Err(stalled(toks, pos))
            },
        },
    }
}

/// One arm of a conditional: `if (..) {..}`, `else if (..) {..}` or
/// `else {..}`.
#[verifier::opaque]
pub open spec fn conditional(toks: Seq<TokenView>, pos: int, file: Seq<char>) -> Parsed
    decreases toks, toks.len() - pos, 26int,
{
    match token_at(toks, pos) {
        Some(TokenView::If(_, _)) => match guarded_block(toks, pos + 1, file) {
            Ok((cond, body, p)) => Ok((Ast::binary(AstKind::If, cond, body), p)),
            Err(f) => Err(f),
        },
        Some(TokenView::Else(_, _)) => match token_at(toks, pos + 1) {
            Some(TokenView::If(_, _)) => match guarded_block(toks, pos + 2, file) {
                Ok((cond, body, p)) => Ok((Ast::binary(AstKind::ElseIf, cond, body), p)),
                Err(f) => Err(f),
            },
            Some(TokenView::Block1(_, _)) => match block(toks, pos + 2, file) {
                Ok((body, p)) => Ok((Ast::unary(AstKind::Else, body), p)),
                Err(f) => Err(f),
            },
            Some(x) => Err(fault_at(toks, pos + 1, "Unexpected token after 'else': "@ + x.text())),
            None => Err(fault_at(toks, pos + 1, "Unexpected end of tokens."@)),
        },
        _ => Err(fault_at(toks, pos, "Expected conditional."@)),
    }
}

/// The arms that follow the arms in `acc`: every `else` opens one more,
/// until an `else` without `if` has closed the conditional.
#[verifier::opaque]
pub open spec fn else_arms(
    toks: Seq<TokenView>,
    pos: int,
    file: Seq<char>,
    acc: Seq<Ast>,
    closed: bool,
) -> Parsed
    decreases toks, toks.len() - pos, 27int,
{
    match token_at(toks, pos) {
        Some(TokenView::Else(_, _)) => if closed {
            Ok((Ast { kind: AstKind::Conditional, children: acc }, pos))
        } else {
            match conditional(toks, pos, file) {
                Ok((arm, p)) => if advanced(toks, pos, p) {
                    else_arms(toks, p, file, acc.push(arm), arm.kind is Else)
                } else {
                    Err(stalled(toks, pos))
                },
                Err(f) => Err(f),
            }
        },
        _ => Ok((Ast { kind: AstKind::Conditional, children: acc }, pos)),
    }
}

/// The step of a `for`: an assignment to a name, or an expression.
#[verifier::opaque]
pub open spec fn for_step(toks: Seq<TokenView>, pos: int, file: Seq<char>) -> Parsed
    decreases toks, toks.len() - pos, 25int,
{
    match (token_at(toks, pos), token_at(toks, pos + 1)) {
        (Some(TokenView::Name(s, _, _)), Some(TokenView::Assign(_, _))) => match expression(
            toks,
            pos + 2,
            file,
        ) {
            Ok((right, p)) => Ok((Ast::binary(AstKind::Assign, Ast::leaf(AstKind::Name(s)), right), p)),
            Err(f) => Err(f),
        },
        _ => expression(toks, pos, file),
    }
}

/// What follows the initial assignment of a `for`:
/// `; condition ; step ) { block }`.
#[verifier::opaque]
pub open spec fn for_tail(toks: Seq<TokenView>, pos: int, file: Seq<char>, init: Ast) -> Parsed
    decreases toks, toks.len() - pos, 41int,
{
    match skip_to(toks, pos, ";"@) {
        Err(f) => Err(f),
        Ok(e1) => match expression(toks, e1, file) {
            Err(f) => Err(f),
            Ok((cond, e2)) => match skip_to(toks, e2, ";"@) {
                Err(f) => Err(f),
                Ok(e3) => if advanced(toks, pos, e3) {
                    match for_step(toks, e3, file) {
                        Err(f) => Err(f),
                        Ok((step, e4)) => match skip_to(toks, e4, ")"@) {
                            Err(f) => Err(f),
                            Ok(e5) => match skip_to(toks, e5, "{"@) {
                                Err(f) => Err(f),
                                Ok(e6) => if advanced(toks, pos, e6) {
                                    match block(toks, e6, file) {
                                        Ok((body, e7)) => Ok(
                                            (
                                                Ast {
                                                    kind: AstKind::For,
                                                    children: seq![init, cond, step, body],
                                                },
                                                e7,
                                            ),
                                        ),
                                        Err(f) => Err(f),
                                    }
                                } else {
                                    Err(stalled(toks, pos))
                                },
                            },
                        },
                    }
                } else {
                    Err(stalled(toks, pos))
                },
            },
        },
    }
}

/// `for ( init ; condition ; step ) { block }`, from the `for` on. The
/// initial assignment is `Type name = expression` or `name = expression`.
#[verifier::opaque]
pub open spec fn for_statement(toks: Seq<TokenView>, pos: int, file: Seq<char>) -> Parsed
    decreases toks, toks.len() - pos, 27int,
{
    match skip_to(toks, pos + 1, "("@) {
        Err(f) => Err(f),
        Ok(_) => match token_at(toks, pos + 2) {
            Some(TokenView::Name(n1, _, _)) => match token_at(toks, pos + 3) {
                Some(TokenView::Name(n2, _, _)) => match skip_to(toks, pos + 4, "="@) {
                    Err(f) => Err(f),
                    Ok(_) => match expression(toks, pos + 5, file) {
                        Err(f) => Err(f),
                        Ok((init, p)) => if advanced(toks, pos, p) {
                            for_tail(
                                toks,
                                p,
                                file,
                                Ast::binary(AstKind::Assign, Ast::leaf(AstKind::TypedVar(n1, n2)), init),
                            )
                        } else {
                            Err(stalled(toks, pos))
                        },
                    },
                },
                Some(TokenView::Assign(_, _)) => match expression(toks, pos + 4, file) {
                    Err(f) => Err(f),
                    Ok((init, p)) => if advanced(toks, pos, p) {
                        for_tail(
                            toks,
                            p,
                            file,
                            Ast::binary(AstKind::Assign, Ast::leaf(AstKind::Name(n1)), init),
                        )
                    } else {
                        Err(stalled(toks, pos))
                    },
                },
                Some(x) => Err(
                    fault_at(toks, pos + 3, "Expected identifier or assignment. Got: "@ + x.text()),
                ),
                None => Err(fault_at(toks, pos + 3, "Unexpected end of tokens."@)),
            },
            _ => Err(fault_at(toks, pos + 2, "Expected identifier."@)),
        },
    }
}

/// `do { block } while ( expression )`, from the `do` on.
#[verifier::opaque]
pub open spec fn do_statement(toks: Seq<TokenView>, pos: int, file: Seq<char>) -> Parsed
    decreases toks, toks.len() - pos, 27int,
{
    match skip_to(toks, pos + 1, "{"@) {
        Err(f) => Err(f),
        Ok(_) => match block(toks, pos + 2, file) {
            Err(f) => Err(f),
            Ok((body, e1)) => match skip_to(toks, e1, "while"@) {
                Err(f) => Err(f),
                Ok(e2) => match skip_to(toks, e2, "("@) {
                    Err(f) => Err(f),
                    Ok(e3) => if advanced(toks, pos, e3) {
                        match expression(toks, e3, file) {
                            Err(f) => Err(f),
                            Ok((cond, e4)) => match skip_to(toks, e4, ")"@) {
                                Err(f) => Err(f),
                                Ok(e5) => Ok((Ast::binary(AstKind::DoWhile, body, cond), e5)),
                            },
                        }
                    } else {
                        Err(stalled(toks, pos))
                    },
                },
            },
        },
    }
}

/// What follows `Type name` at the start of a statement: `= expression`
/// declares a variable, a parameter list and a block a local function.
#[verifier::opaque]
pub open spec fn typed_statement(
    toks: Seq<TokenView>,
    pos: int,
    file: Seq<char>,
    typ: Seq<char>,
    name: Seq<char>,
) -> Parsed
    decreases toks, toks.len() - pos, 42int,
{
    match token_at(toks, pos) {
        Some(TokenView::Assign(_, _)) => match expression(toks, pos + 1, file) {
            Ok((right, p)) => Ok(
                (Ast::binary(AstKind::Assign, Ast::leaf(AstKind::TypedVar(typ, name)), right), p),
            ),
            Err(f) => Err(f),
        },
        Some(TokenView::Paren1(_, _)) => match function_parts(toks, pos, file) {
            Ok((params, body, p)) => Ok((Ast::binary(AstKind::FunDef(name, file), params, body), p)),
            Err(f) => Err(f),
        },
        Some(x) => Err(fault_at(toks, pos, "Unexpected token: "@ + x.text())),
        None => Err(fault_at(toks, pos, "Unexpected end of tokens."@)),
    }
}

/// `statement`: an assignment, a local function, a conditional, a loop, a
/// `return`, or an expression.
#[verifier::opaque]
pub open spec fn statement(toks: Seq<TokenView>, pos: int, file: Seq<char>) -> Parsed
    decreases toks, toks.len() - pos, 28int,
{
    match token_at(toks, pos) {
        Some(TokenView::Name(s, _, _)) => match token_at(toks, pos + 1) {
            Some(TokenView::Name(name, _, _)) => typed_statement(toks, pos + 2, file, s, name),
            Some(TokenView::Assign(_, _)) => match expression(toks, pos + 2, file) {
                Ok((right, p)) => Ok(
                    (Ast::binary(AstKind::Assign, Ast::leaf(AstKind::Name(s)), right), p),
                ),
                Err(f) => Err(f),
            },
            _ => expression(toks, pos, file),
        },
        Some(TokenView::If(_, _)) => match conditional(toks, pos, file) {
            Ok((first, p)) => if advanced(toks, pos, p) {
                else_arms(toks, p, file, seq![first], false)
            } else {
                Err(stalled(toks, pos))
            },
            Err(f) => Err(f),
        },
        Some(TokenView::While(_, _)) => match guarded_block(toks, pos + 1, file) {
            Ok((cond, body, p)) => Ok((Ast::binary(AstKind::While, cond, body), p)),
            Err(f) => Err(f),
        },
        Some(TokenView::Do(_, _)) => do_statement(toks, pos, file),
        Some(TokenView::For(_, _)) => for_statement(toks, pos, file),
        Some(TokenView::Return(_, _)) => match expression(toks, pos + 1, file) {
            Ok((val, p)) => Ok((Ast::unary(AstKind::Return, val), p)),
            Err(f) => Err(f),
        },
        _ => expression(toks, pos, file),
    }
}

/// The parameters of a method, one for every entry of its parameter list:
/// untyped (`var`) and by name.
pub open spec fn method_params(params: Ast) -> Seq<ParamView> {
    Seq::new(
        params.children.len(),
        |i: int| ParamView { typ: "var"@, name: params.children[i].kind->Name_0, fieldinit: false },
    )
}

/// The constructor that a class without a written one gets: no parameters,
/// no body.
pub open spec fn default_constructor(class: Seq<char>, file: Seq<char>) -> Ast {
    Ast::binary(
        AstKind::Constructor(class, file),
        Ast::leaf(AstKind::ParamList),
        Ast::leaf(AstKind::Null),
    )
}

/// A class and its constructors, and the position behind them.
pub type Membered = Result<(ClassView, Seq<Ast>, int), Fault>;

/// A constructor of the class `class`, from its name on: a parameter list,
/// then a block or `;`.
#[verifier::opaque]
pub open spec fn constructor_member(
    toks: Seq<TokenView>,
    pos: int,
    file: Seq<char>,
    class: Seq<char>,
) -> Parsed {
    match constructor_paramlist(toks, pos + 1) {
        Err(f) => Err(f),
        Ok((params, e1)) => match token_at(toks, e1) {
            Some(TokenView::Block1(_, _)) => match block(toks, e1 + 1, file) {
                Err(f) => Err(f),
                Ok((body, e2)) => Ok(
                    (Ast::binary(AstKind::Constructor(class, file), params, body), e2),
                ),
            },
            Some(TokenView::EndSt(_, _)) => Ok(
                (
                    Ast::binary(AstKind::Constructor(class, file), params, Ast::leaf(AstKind::Null)),
                    e1 + 1,
                ),
            ),
            Some(x) => Err(fault_at(toks, e1, "Expected constructor body, got: "@ + x.text())),
            None => Err(fault_at(toks, e1, "Unexpected end of tokens."@)),
        },
    }
}

/// A member that is no constructor, from its type on, added to `class`:
/// `Type name` followed by a parameter list and a block (a method), by `;`
/// (a field that begins as `Null`), or by `= expression ;` (a field with a
/// first value).
#[verifier::opaque]
pub open spec fn plain_member(
    toks: Seq<TokenView>,
    pos: int,
    file: Seq<char>,
    mtype: Seq<char>,
    class: ClassView,
) -> Result<(ClassView, int), Fault> {
    match token_at(toks, pos + 1) {
        Some(TokenView::Name(name, _, _)) => match token_at(toks, pos + 2) {
            Some(TokenView::Paren1(_, _)) => match function_parts(toks, pos + 2, file) {
                Err(f) => Err(f),
                Ok((params, body, p)) => Ok(
                    (
                        class.with_method(
                            FunctionView { name, file, body, params: method_params(params) },
                        ),
                        p,
                    ),
                ),
            },
            Some(TokenView::EndSt(_, _)) => Ok(
                (class.with_field(mtype, name, Ast::leaf(AstKind::Null)), pos + 3),
            ),
            Some(TokenView::Assign(_, _)) => match expression(toks, pos + 3, file) {
                Err(f) => Err(f),
                Ok((val, p)) => match skip_to(toks, p, ";"@) {
                    Err(f) => Err(f),
                    Ok(e2) => Ok((class.with_field(mtype, name, val), e2)),
                },
            },
            Some(x) => Err(
                fault_at(toks, pos + 2, "Unexpected token when parsing class member: "@ + x.text()),
            ),
            None => Err(fault_at(toks, pos + 2, "Unexpected end of tokens."@)),
        },
        Some(x) => Err(fault_at(toks, pos + 1, "Expected class member name, got "@ + x.text())),
        None => Err(fault_at(toks, pos + 1, "Unexpected end of tokens."@)),
    }
}

/// The members of a class from `pos` up to its closing brace, added to
/// `class` and to the constructors in `ctors`. A member that begins with
/// the name of the class before an opening round bracket is a constructor.
#[verifier::opaque]
pub open spec fn members(
    toks: Seq<TokenView>,
    pos: int,
    file: Seq<char>,
    class: ClassView,
    ctors: Seq<Ast>,
) -> Membered
    decreases toks.len() - pos,
{
    if 0 <= pos && pos + 1 < toks.len() {
        match toks[pos] {
            TokenView::Name(mtype, _, _) => if mtype == class.name && token_at(toks, pos + 1) matches Some(
                TokenView::Paren1(_, _),
            ) {
                match constructor_member(toks, pos, file, class.name) {
                    Err(f) => Err(f),
                    Ok((ctor, p)) => if advanced(toks, pos, p) {
                        members(toks, p, file, class, ctors.push(ctor))
                    } else {
                        Err(stalled(toks, pos))
                    },
                }
            } else {
                match plain_member(toks, pos, file, mtype, class) {
                    Err(f) => Err(f),
                    Ok((class2, p)) => if advanced(toks, pos, p) {
                        members(toks, p, file, class2, ctors)
                    } else {
                        Err(stalled(toks, pos))
                    },
                }
            },
            TokenView::Block2(_, _) => Ok((class, ctors, pos)),
            x => Err(
                fault_at(
                    toks,
                    pos,
                    "Unexpected first token when parsing class member "@ + x.text(),
                ),
            ),
        }
    } else {
        Ok((class, ctors, pos))
    }
}

/// The constructors of a class: those written, or else the default one.
pub open spec fn constructors_of(ctors: Seq<Ast>, class: Seq<char>, file: Seq<char>) -> Seq<Ast> {
    if ctors.len() == 0 {
        seq![default_constructor(class, file)]
    } else {
        ctors
    }
}

/// `class Name { members }`, from the `class` on.
#[verifier::opaque]
pub open spec fn class_decl(toks: Seq<TokenView>, pos: int, file: Seq<char>) -> Membered {
    match token_at(toks, pos + 1) {
        Some(TokenView::Name(name, _, _)) => match skip_to(toks, pos + 2, "{"@) {
            Err(f) => Err(f),
            Ok(e1) => match members(toks, e1, file, ClassView::empty(name), Seq::empty()) {
                Err(f) => Err(f),
                Ok((class, ctors, e2)) => match skip_to(toks, e2, "}"@) {
                    Err(f) => Err(f),
                    Ok(e3) => Ok((class, constructors_of(ctors, name, file), e3)),
                },
            },
        },
        Some(x) => Err(fault_at(toks, pos + 1, "Expected class name. Got "@ + x.text())),
        None => Err(fault_at(toks, pos + 1, "Unexpected end of tokens."@)),
    }
}

/// What a run of declarations adds: global declarations and classes.
pub struct Declared {
    pub globals: Seq<Ast>,
    pub classes: Seq<ClassView>,
    pub next: int,
}

/// One top-level declaration: `Type name paramList { block }`, a function,
/// or a class.
#[verifier::opaque]
pub open spec fn decl(toks: Seq<TokenView>, pos: int, file: Seq<char>) -> Result<Declared, Fault> {
    match token_at(toks, pos) {
        Some(TokenView::Name(_, _, _)) => match token_at(toks, pos + 1) {
            Some(TokenView::Name(fname, _, _)) => match function_parts(toks, pos + 2, file) {
                Ok((params, body, p)) => Ok(
                    Declared {
                        globals: seq![Ast::binary(AstKind::FunDef(fname, file), params, body)],
                        classes: Seq::empty(),
                        next: p,
                    },
                ),
                Err(f) => Err(f),
            },
            _ => Err(fault_at(toks, pos + 1, "Expected function name."@)),
        },
        Some(TokenView::Class(_, _)) => match class_decl(toks, pos, file) {
            Ok((class, ctors, p)) => Ok(Declared { globals: ctors, classes: seq![class], next: p }),
            Err(f) => Err(f),
        },
        Some(TokenView::Import(_, _)) => Err(
            fault_at(toks, pos, "Directives must appear before any declarations."@),
        ),
        Some(x) => Err(fault_at(toks, pos, "Expected top level declaration. Got: "@ + x.text())),
        None => Err(fault_at(toks, pos, "Unexpected end of tokens."@)),
    }
}

/// The declarations from `pos` to the last token, which must be left over
/// alone, added to `so_far`.
#[verifier::opaque]
pub open spec fn decls(toks: Seq<TokenView>, pos: int, file: Seq<char>, so_far: Declared) -> Result<
    Declared,
    Fault,
>
    decreases toks.len() - pos,
{
    if 0 <= pos && pos + 1 < toks.len() {
        match decl(toks, pos, file) {
            Err(f) => Err(f),
            Ok(d) => if advanced(toks, pos, d.next) {
                decls(
                    toks,
                    d.next,
                    file,
                    Declared {
                        globals: so_far.globals + d.globals,
                        classes: so_far.classes + d.classes,
                        next: d.next,
                    },
                )
            } else {
                Err(stalled(toks, pos))
            },
        }
    } else if pos + 1 == toks.len() {
        Ok(Declared { next: pos, ..so_far })
    } else {
        Err(fault_at(toks, pos, "Unexpected index at end of parse."@))
    }
}

/// The `import "path";` directives from `pos` on, added to `acc`.
#[verifier::opaque]
pub open spec fn directives(toks: Seq<TokenView>, pos: int, acc: Seq<Seq<char>>) -> Result<
    (Seq<Seq<char>>, int),
    Fault,
>
    decreases toks.len() - pos,
{
    if 0 <= pos && pos + 1 < toks.len() {
        match toks[pos] {
            TokenView::Import(_, _) => match token_at(toks, pos + 1) {
                Some(TokenView::Str(s, _, _, _)) => match skip_to(toks, pos + 2, ";"@) {
                    Ok(p) => directives(toks, p, acc.push(s)),
                    Err(f) => Err(f),
                },
                _ => Err(fault_at(toks, pos + 1, "Expected string after 'import'."@)),
            },
            _ => Ok((acc, pos)),
        }
    } else {
        Ok((acc, pos))
    }
}

/// A whole file: the paths it imports, and what it declares.
pub struct Program {
    pub imports: Seq<Seq<char>>,
    pub globals: Seq<Ast>,
    pub classes: Seq<ClassView>,
    pub next: int,
}

/// A file from `pos` on: directives, then declarations up to the last token.
#[verifier::opaque]
pub open spec fn program(toks: Seq<TokenView>, pos: int, file: Seq<char>) -> Result<Program, Fault> {
    match directives(toks, pos, Seq::empty()) {
        Err(f) => Err(f),
        Ok((imports, p)) => match decls(
            toks,
            p,
            file,
            Declared { globals: Seq::empty(), classes: Seq::empty(), next: p },
        ) {
            Err(f) => Err(f),
            Ok(d) => Ok(Program { imports, globals: d.globals, classes: d.classes, next: d.next }),
        },
    }
}

} // verus!
