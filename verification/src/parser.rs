//! The parser of statements, declarations and whole files.

use crate::context::Ctx;
use crate::expression::{expression, parse_post};
use crate::grammar;
use crate::grammar::{advanced, Declared, Guarded};
use crate::node::{
    all_declarations, all_well_formed, lemma_node_views, lemma_node_views_push, lemma_well_formed,
    node_views, Ast, AstKind, Node, NodeType,
};
use crate::object::{
    all_classes_well_formed, param_views, Class, ClassView, Function, ParamObj, ParamView,
};
use crate::objsys::ObjSys;
use crate::reader::{token_at, Reader, ReaderView};
use crate::text::{joined, owned, string_views};
use crate::token::Token;
use crate::utils::ParseError;
use vstd::pervasive::unreached;
use vstd::prelude::*;

verus! {

/// What a parser of two trees promises: as [`parse_post`], for both trees.
pub open spec fn pair_post(
    meant: Guarded,
    before: ReaderView,
    after: ReaderView,
    out: Result<(Node, Node), ParseError>,
) -> bool {
    &&& after.tokens == before.tokens
    &&& match meant {
        Ok((first, second, next)) => {
            &&& out is Ok
            &&& out->Ok_0.0@ == first
            &&& out->Ok_0.1@ == second
            &&& after.pos == next
            &&& advanced(before.tokens, before.pos, next)
            &&& first.well_formed()
            &&& second.well_formed()
        },
        Err(f) => out is Err && out->Err_0@ == f,
    }
}

/// `paramList`: names in round brackets. The cursor must stand on the
/// opening bracket.
fn paramlist(reader: &mut Reader) -> (out: Result<Node, ParseError>)
    ensures
        parse_post(
            grammar::paramlist(old(reader)@.tokens, old(reader)@.pos),
            old(reader)@,
            final(reader)@,
            out,
        ),
        out matches Ok(n) ==> n@.kind is ParamList && forall|i: int|
            0 <= i < n@.children.len() ==> (#[trigger] n@.children[i]).is_plain_name(),
{
    proof {
        reveal(grammar::param_items);
    }
    let ghost toks = reader@.tokens;
    let ghost start = reader@.pos;
    match reader.sym() {
        Some(Token::Paren1(_, _)) => {
            let mut node = Node::new(NodeType::ParamList);
            let mut expect_comma = false;
            reader.next();
            while reader.more()
                invariant
                    reader@.tokens == toks,
                    toks == old(reader)@.tokens,
                    start == old(reader)@.pos,
                    start < reader@.pos <= toks.len(),
                    token_at(toks, start) is Some,
                    toks[start] is Paren1,
                    node@.kind == AstKind::ParamList,
                    all_well_formed(node@.children),
                    forall|i: int|
                        0 <= i < node@.children.len() ==> (#[trigger] node@.children[i]).is_plain_name(),
                    grammar::param_items(toks, start + 1, Seq::empty(), false, false)
                        == grammar::param_items(
                        toks,
                        reader@.pos,
                        node@.children,
                        expect_comma,
                        false,
                    ),
                decreases toks.len() - reader@.pos,
            {
                proof {
                    reveal(grammar::param_items);
                }
                match reader.sym() {
                    Some(Token::Paren2(_, _)) => {
                        reader.next();
                        proof {
                            lemma_well_formed(node@);
                        }
                        return Ok(node);
                    },
                    Some(Token::Comma(_, _)) => {
                        if !expect_comma {
                            return Err(reader.fault(reader.pos(), owned("Unexpected separator in parameter list: ','.")));
                        }
                        reader.next();
                        expect_comma = false;
                    },
                    Some(Token::Name(s, _, _)) => {
                        node.add_child(Node::new(NodeType::Name(s)));
                        expect_comma = true;
                        reader.next();
                    },
                    _ => {
                        return Err(
                            reader.fault(
                                reader.pos(),
                                owned("Unexpected token when reading parameters."),
                            ),
                        );
                    },
                }
            }
            Err(reader.fault(reader.pos(), owned("Unexpected end of tokens in parameter list.")))
        },
        _ => {
            let at = if reader.pos() > 0 {
                reader.pos() - 1
            } else {
                0
            };
            Err(
                reader.fault(
                    at,
                    owned("A function declaration needs an explicit list of parameters."),
                ),
            )
        },
    }
}

/// The parameter list of a constructor: names and `this.name` entries in
/// round brackets.
fn constructor_paramlist(reader: &mut Reader) -> (out: Result<Node, ParseError>)
    ensures
        parse_post(
            grammar::constructor_paramlist(old(reader)@.tokens, old(reader)@.pos),
            old(reader)@,
            final(reader)@,
            out,
        ),
        out matches Ok(n) ==> n@.kind is ParamList && forall|i: int|
            0 <= i < n@.children.len() ==> (#[trigger] n@.children[i]).is_param(),
{
    proof {
        reveal(grammar::param_items);
    }
    let ghost toks = reader@.tokens;
    let ghost start = reader@.pos;
    match reader.sym() {
        Some(Token::Paren1(_, _)) => {
            let mut node = Node::new(NodeType::ParamList);
            let mut expect_comma = false;
            reader.next();
            while reader.more()
                invariant
                    reader@.tokens == toks,
                    toks == old(reader)@.tokens,
                    start == old(reader)@.pos,
                    start < reader@.pos <= toks.len(),
                    token_at(toks, start) is Some,
                    toks[start] is Paren1,
                    node@.kind == AstKind::ParamList,
                    all_well_formed(node@.children),
                    forall|i: int|
                        0 <= i < node@.children.len() ==> (#[trigger] node@.children[i]).is_param(),
                    grammar::param_items(toks, start + 1, Seq::empty(), false, true)
                        == grammar::param_items(
                        toks,
                        reader@.pos,
                        node@.children,
                        expect_comma,
                        true,
                    ),
                decreases toks.len() - reader@.pos,
            {
                proof {
                    reveal(grammar::param_items);
                }
                match reader.sym() {
                    Some(Token::Paren2(_, _)) => {
                        reader.next();
                        proof {
                            lemma_well_formed(node@);
                        }
                        return Ok(node);
                    },
                    Some(Token::This(_, _)) => {
                        reader.next();
                        match reader.skip(".") {
                            Ok(_) => {},
                            Err(m) => {
                                return Err(reader.fault(reader.pos(), m));
                            },
                        }
                        match reader.sym() {
                            Some(Token::Name(s, _, _)) => {
                                node.add_child(Node::new(NodeType::ThisFieldInit(s)));
                                expect_comma = true;
                                reader.next();
                            },
                            Some(x) => {
                                let m = joined(owned("Expected identifier. Got "), x.text().as_str());
                                return Err(reader.fault(reader.pos(), m));
                            },
                            None => {
                                return Err(
                                    reader.fault(reader.pos(), owned("Unexpected end of tokens.")),
                                );
                            },
                        }
                    },
                    Some(Token::Comma(_, _)) => {
                        if !expect_comma {
                            return Err(reader.fault(reader.pos(), owned("Expected an identifier, but got ','.")));
                        }
                        reader.next();
                        expect_comma = false;
                    },
                    Some(Token::Name(s, _, _)) => {
                        node.add_child(Node::new(NodeType::Name(s)));
                        expect_comma = true;
                        reader.next();
                    },
                    _ => {
                        return Err(
                            reader.fault(
                                reader.pos(),
                                owned("Unexpected token when reading parameters."),
                            ),
                        );
                    },
                }
            }
            Err(reader.fault(reader.pos(), owned("Unexpected end of tokens in parameter list.")))
        },
        _ => {
            let at = if reader.pos() > 0 {
                reader.pos() - 1
            } else {
                0
            };
            Err(
                reader.fault(
                    at,
                    owned("A function declaration needs an explicit list of parameters."),
                ),
            )
        },
    }
}

/// `block`: the statements up to the closing brace. The cursor must stand
/// behind the opening brace.
fn block(reader: &mut Reader, ctx: &Ctx) -> (out: Result<Node, ParseError>)
    ensures
        parse_post(
            grammar::block(old(reader)@.tokens, old(reader)@.pos, ctx.filepath@),
            old(reader)@,
            final(reader)@,
            out,
        ),
        out matches Ok(n) ==> n@.kind is Block,
    decreases old(reader)@.tokens, old(reader)@.tokens.len() - old(reader)@.pos, 40int,
{
    proof {
        reveal(grammar::block);
        reveal(grammar::block_items);
        reveal(grammar::terminated_statement);
    }
    let ghost toks = reader@.tokens;
    let ghost start = reader@.pos;
    let mut node = Node::new(NodeType::Block);
    while reader.more()
        invariant
            reader@.tokens == toks,
            toks == old(reader)@.tokens,
            start == old(reader)@.pos,
            start <= reader@.pos,
            node@.kind == AstKind::Block,
            all_well_formed(node@.children),
            grammar::block_items(toks, start, ctx.filepath@, Seq::empty()) == grammar::block_items(
                toks,
                reader@.pos,
                ctx.filepath@,
                node@.children,
            ),
        decreases toks.len() - reader@.pos,
    {
        proof {
            reveal(grammar::block);
            reveal(grammar::block_items);
            reveal(grammar::terminated_statement);
        }
        match reader.sym() {
            Some(Token::Block2(_, _)) => {
                reader.next();
                proof {
                    lemma_well_formed(node@);
                }
                return Ok(node);
            },
            Some(Token::End) => {
                return Err(reader.fault(reader.pos(), owned("Unexpected end of tokens in block.")));
            },
            Some(Token::EndSt(_, _)) => {
                reader.next();
            },
            _ => {
                match terminated_statement(reader, ctx) {
                    Ok(snode) => {
                        node.add_child(snode);
                    },
                    Err(e) => {
                        return Err(e);
                    },
                }
            },
        }
    }
    Err(reader.fault(reader.pos(), owned("Unexpected end of tokens in block.")))
}

/// `( expression ) { block }`: the condition and the body.
fn guarded_block(reader: &mut Reader, ctx: &Ctx) -> (out: Result<(Node, Node), ParseError>)
    ensures
        pair_post(
            grammar::guarded_block(old(reader)@.tokens, old(reader)@.pos, ctx.filepath@),
            old(reader)@,
            final(reader)@,
            out,
        ),
        out matches Ok(pair) ==> pair.1@.kind is Block,
    decreases old(reader)@.tokens, old(reader)@.tokens.len() - old(reader)@.pos, 41int,
{
    proof {
        reveal(grammar::guarded_block);
        reveal(grammar::expression);
        reveal(grammar::block);
    }
    match reader.skip("(") {
        Ok(_) => {},
        Err(m) => {
            return Err(reader.fault(reader.pos(), m));
        },
    }
    let cond = match expression(reader, ctx) {
        Ok(v) => v,
        Err(e) => {
            return Err(e);
        },
    };
    match reader.skip(")") {
        Ok(_) => {},
        Err(m) => {
            return Err(reader.fault(reader.pos(), m));
        },
    }
    match reader.skip("{") {
        Ok(_) => {},
        Err(m) => {
            return Err(reader.fault(reader.pos(), m));
        },
    }
    let body = match block(reader, ctx) {
        Ok(v) => v,
        Err(e) => {
            return Err(e);
        },
    };
    Ok((cond, body))
}

/// A parameter list, an opening brace and a block: the parameters and the
/// body of a function.
fn function_parts(reader: &mut Reader, ctx: &Ctx) -> (out: Result<(Node, Node), ParseError>)
    ensures
        pair_post(
            grammar::function_parts(old(reader)@.tokens, old(reader)@.pos, ctx.filepath@),
            old(reader)@,
            final(reader)@,
            out,
        ),
        out matches Ok(pair) ==> {
            &&& pair.0@.kind is ParamList
            &&& pair.1@.kind is Block
            &&& forall|i: int|
                0 <= i < pair.0@.children.len() ==> (#[trigger] pair.0@.children[i]).is_plain_name()
        },
    decreases old(reader)@.tokens, old(reader)@.tokens.len() - old(reader)@.pos, 41int,
{
    proof {
        reveal(grammar::function_parts);
        reveal(grammar::block);
    }
    let params = match paramlist(reader) {
        Ok(v) => v,
        Err(e) => {
            return Err(e);
        },
    };
    match reader.skip("{") {
        Ok(_) => {},
        Err(m) => {
            return Err(reader.fault(reader.pos(), m));
        },
    }
    let body = match block(reader, ctx) {
        Ok(v) => v,
        Err(e) => {
            return Err(e);
        },
    };
    Ok((params, body))
}

/// The first arm of a conditional: `if ( expression ) { block }`.
fn if_arm(reader: &mut Reader, ctx: &Ctx) -> (out: Result<Node, ParseError>)
    requires
        token_at(old(reader)@.tokens, old(reader)@.pos) is Some,
        old(reader)@.tokens[old(reader)@.pos] is If,
    ensures
        parse_post(
            grammar::conditional(old(reader)@.tokens, old(reader)@.pos, ctx.filepath@),
            old(reader)@,
            final(reader)@,
            out,
        ),
        out matches Ok(n) ==> n@.kind is If,
    decreases old(reader)@.tokens, old(reader)@.tokens.len() - old(reader)@.pos, 25int,
{
    proof {
        reveal(grammar::conditional);
        reveal(grammar::guarded_block);
        reveal(grammar::block);
        reader.lemma_bounds();
    }
    reader.next();
    match guarded_block(reader, ctx) {
        Ok((boolnode, bodynode)) => Ok(Node::binary(NodeType::If, boolnode, bodynode)),
        Err(e) => Err(e),
    }
}

/// A later arm of a conditional: `else if ( expression ) { block }` or
/// `else { block }`.
fn else_arm(reader: &mut Reader, ctx: &Ctx) -> (out: Result<Node, ParseError>)
    requires
        token_at(old(reader)@.tokens, old(reader)@.pos) is Some,
        old(reader)@.tokens[old(reader)@.pos] is Else,
    ensures
        parse_post(
            grammar::conditional(old(reader)@.tokens, old(reader)@.pos, ctx.filepath@),
            old(reader)@,
            final(reader)@,
            out,
        ),
        out matches Ok(n) ==> n@.kind is ElseIf || n@.kind is Else,
    decreases old(reader)@.tokens, old(reader)@.tokens.len() - old(reader)@.pos, 25int,
{
    proof {
        reveal(grammar::conditional);
        reveal(grammar::guarded_block);
        reveal(grammar::block);
        reader.lemma_bounds();
    }
    match reader.next() {
        Some(Token::If(_, _)) => {
            reader.next();
            match guarded_block(reader, ctx) {
                Ok((boolnode, bodynode)) => Ok(Node::binary(NodeType::ElseIf, boolnode, bodynode)),
                Err(e) => Err(e),
            }
        },
        Some(Token::Block1(_, _)) => {
            reader.next();
            match block(reader, ctx) {
                Ok(bodynode) => Ok(Node::unary(NodeType::Else, bodynode)),
                Err(e) => Err(e),
            }
        },
        Some(x) => {
            let m = joined(owned("Unexpected token after 'else': "), x.text().as_str());
            Err(reader.fault(reader.pos(), m))
        },
        None => Err(reader.fault(reader.pos(), owned("Unexpected end of tokens."))),
    }
}

/// One arm of a conditional. The cursor must stand on `if` or `else`.
fn conditional(reader: &mut Reader, ctx: &Ctx) -> (out: Result<Node, ParseError>)
    ensures
        parse_post(
            grammar::conditional(old(reader)@.tokens, old(reader)@.pos, ctx.filepath@),
            old(reader)@,
            final(reader)@,
            out,
        ),
        out matches Ok(n) ==> {
            &&& token_at(old(reader)@.tokens, old(reader)@.pos) is Some
            &&& (old(reader)@.tokens[old(reader)@.pos] is If ==> n@.kind is If)
            &&& (old(reader)@.tokens[old(reader)@.pos] is Else ==> n@.kind is ElseIf || n@.kind is Else)
        },
    decreases old(reader)@.tokens, old(reader)@.tokens.len() - old(reader)@.pos, 26int,
{
    proof {
        reveal(grammar::conditional);
    }
    match reader.sym() {
        Some(Token::If(_, _)) => if_arm(reader, ctx),
        Some(Token::Else(_, _)) => else_arm(reader, ctx),
        _ => Err(reader.fault(reader.pos(), owned("Expected conditional."))),
    }
}

/// The arms of a conditional that is open: an `If` first, `ElseIf` behind.
pub open spec fn arms_open(arms: Seq<Ast>) -> bool {
    &&& arms.len() >= 1
    &&& arms[0].kind is If
    &&& forall|i: int| 1 <= i < arms.len() ==> (#[trigger] arms[i]).kind is ElseIf
}

/// A whole conditional: the `if` arm and every arm that an `else` adds to
/// it. The cursor must stand on `if`.
fn if_statement(reader: &mut Reader, ctx: &Ctx) -> (out: Result<Node, ParseError>)
    requires
        token_at(old(reader)@.tokens, old(reader)@.pos) is Some,
        old(reader)@.tokens[old(reader)@.pos] is If,
    ensures
        parse_post(
            grammar::statement(old(reader)@.tokens, old(reader)@.pos, ctx.filepath@),
            old(reader)@,
            final(reader)@,
            out,
        ),
    decreases old(reader)@.tokens, old(reader)@.tokens.len() - old(reader)@.pos, 27int,
{
    proof {
        reveal(grammar::statement);
        reveal(grammar::conditional);
        reveal(grammar::else_arms);
    }
    let ghost toks = reader@.tokens;
    let ghost start = reader@.pos;
    let mut condnode = Node::new(NodeType::Conditional);
    let condpart = match conditional(reader, ctx) {
        Ok(v) => v,
        Err(e) => {
            return Err(e);
        },
    };
    let ghost first = condpart@;
    let ghost after_first = reader@.pos;
    condnode.add_child(condpart);
    assert(condnode@.children =~= seq![first]);
    let mut closed = false;
    loop
        invariant
            reader@.tokens == toks,
            toks == old(reader)@.tokens,
            start == old(reader)@.pos,
            token_at(toks, start) is Some,
            toks[start] is If,
            advanced(toks, start, after_first),
            advanced(toks, start, reader@.pos),
            grammar::conditional(toks, start, ctx.filepath@) == Ok::<(Ast, int), crate::utils::Fault>(
                (first, after_first),
            ),
            condnode@.kind == AstKind::Conditional,
            all_well_formed(condnode@.children),
            if closed {
                condnode@.arms_in_order()
            } else {
                arms_open(condnode@.children)
            },
            grammar::else_arms(toks, after_first, ctx.filepath@, seq![first], false)
                == grammar::else_arms(toks, reader@.pos, ctx.filepath@, condnode@.children, closed),
        decreases toks.len() - reader@.pos,
    {
        proof {
            reveal(grammar::statement);
            reveal(grammar::else_arms);
            reveal(grammar::conditional);
        }
        match reader.sym() {
            Some(Token::Else(_, _)) => {
                if closed {
                    proof {
                        lemma_well_formed(condnode@);
                    }
                    return Ok(condnode);
                }
                let arm = match conditional(reader, ctx) {
                    Ok(v) => v,
                    Err(e) => {
                        return Err(e);
                    },
                };
                closed = matches!(arm.nodetype, NodeType::Else);
                condnode.add_child(arm);
            },
            _ => {
                proof {
                    lemma_well_formed(condnode@);
                }
                return Ok(condnode);
            },
        }
    }
}

/// The step of a `for`: an assignment to a name, or an expression.
fn for_step(reader: &mut Reader, ctx: &Ctx) -> (out: Result<Node, ParseError>)
    ensures
        parse_post(
            grammar::for_step(old(reader)@.tokens, old(reader)@.pos, ctx.filepath@),
            old(reader)@,
            final(reader)@,
            out,
        ),
    decreases old(reader)@.tokens, old(reader)@.tokens.len() - old(reader)@.pos, 25int,
{
    proof {
        reveal(grammar::for_step);
        reveal(grammar::expression);
    }
    match reader.sym() {
        Some(Token::Name(s, _, _)) => match reader.peek() {
            Some(Token::Assign(_, _)) => {
                reader.next();
                reader.next();
                let right_node = match expression(reader, ctx) {
                    Ok(v) => v,
                    Err(e) => {
                        return Err(e);
                    },
                };
                Ok(Node::binary(NodeType::Assign, Node::new(NodeType::Name(s)), right_node))
            },
            _ => expression(reader, ctx),
        },
        _ => expression(reader, ctx),
    }
}

/// What follows the initial assignment of a `for`. The cursor must stand
/// on the `;` behind it.
fn for_tail(reader: &mut Reader, ctx: &Ctx, assign: Node) -> (out: Result<Node, ParseError>)
    requires
        assign@.well_formed(),
        assign@.kind is Assign,
        assign@.children.len() == 2,
        assign@.children[0].kind is Name || assign@.children[0].kind is TypedVar,
    ensures
        parse_post(
            grammar::for_tail(old(reader)@.tokens, old(reader)@.pos, ctx.filepath@, assign@),
            old(reader)@,
            final(reader)@,
            out,
        ),
    decreases old(reader)@.tokens, old(reader)@.tokens.len() - old(reader)@.pos, 41int,
{
    proof {
        reveal(grammar::for_tail);
        reveal(grammar::expression);
        reveal(grammar::for_step);
        reveal(grammar::block);
    }
    match reader.skip(";") {
        Ok(_) => {},
        Err(m) => {
            return Err(reader.fault(reader.pos(), m));
        },
    }
    let condexpr = match expression(reader, ctx) {
        Ok(v) => v,
        Err(e) => {
            return Err(e);
        },
    };
    match reader.skip(";") {
        Ok(_) => {},
        Err(m) => {
            return Err(reader.fault(reader.pos(), m));
        },
    }
    let mutexpr = match for_step(reader, ctx) {
        Ok(v) => v,
        Err(e) => {
            return Err(e);
        },
    };
    match reader.skip(")") {
        Ok(_) => {},
        Err(m) => {
            return Err(reader.fault(reader.pos(), m));
        },
    }
    match reader.skip("{") {
        Ok(_) => {},
        Err(m) => {
            return Err(reader.fault(reader.pos(), m));
        },
    }
    let body = match block(reader, ctx) {
        Ok(v) => v,
        Err(e) => {
            return Err(e);
        },
    };
    let ghost kids = seq![assign@, condexpr@, mutexpr@, body@];
    let mut forloop = Node::new(NodeType::For);
    forloop.add_child(assign);
    forloop.add_child(condexpr);
    forloop.add_child(mutexpr);
    forloop.add_child(body);
    proof {
        assert(forloop@.children =~= kids);
        lemma_well_formed(forloop@);
    }
    Ok(forloop)
}

/// `for ( init ; condition ; step ) { block }`. The cursor must stand on
/// `for`.
fn for_statement(reader: &mut Reader, ctx: &Ctx) -> (out: Result<Node, ParseError>)
    requires
        token_at(old(reader)@.tokens, old(reader)@.pos) is Some,
    ensures
        parse_post(
            grammar::for_statement(old(reader)@.tokens, old(reader)@.pos, ctx.filepath@),
            old(reader)@,
            final(reader)@,
            out,
        ),
    decreases old(reader)@.tokens, old(reader)@.tokens.len() - old(reader)@.pos, 27int,
{
    proof {
        reveal(grammar::for_statement);
        reveal(grammar::expression);
        reveal(grammar::for_tail);
        reader.lemma_bounds();
    }
    reader.next();
    match reader.skip("(") {
        Ok(_) => {},
        Err(m) => {
            return Err(reader.fault(reader.pos(), m));
        },
    }
    match reader.sym() {
        Some(Token::Name(n1, _, _)) => match reader.next() {
            Some(Token::Name(n2, _, _)) => {
                reader.next();
                let typvar = Node::new(NodeType::TypedVar(n1, n2));
                match reader.skip("=") {
                    Ok(_) => {},
                    Err(m) => {
                        return Err(reader.fault(reader.pos(), m));
                    },
                }
                let initexpr = match expression(reader, ctx) {
                    Ok(v) => v,
                    Err(e) => {
                        return Err(e);
                    },
                };
                let assign = Node::binary(NodeType::Assign, typvar, initexpr);
                for_tail(reader, ctx, assign)
            },
            Some(Token::Assign(_, _)) => {
                reader.next();
                let initexpr = match expression(reader, ctx) {
                    Ok(v) => v,
                    Err(e) => {
                        return Err(e);
                    },
                };
                let namenode = Node::new(NodeType::Name(n1));
                let assign = Node::binary(NodeType::Assign, namenode, initexpr);
                for_tail(reader, ctx, assign)
            },
            Some(x) => {
                let m = joined(
                    owned("Expected identifier or assignment. Got: "),
                    x.text().as_str(),
                );
                Err(reader.fault(reader.pos(), m))
            },
            None => Err(reader.fault(reader.pos(), owned("Unexpected end of tokens."))),
        },
        _ => Err(reader.fault(reader.pos(), owned("Expected identifier."))),
    }
}

/// `do { block } while ( expression )`. The cursor must stand on `do`.
fn do_statement(reader: &mut Reader, ctx: &Ctx) -> (out: Result<Node, ParseError>)
    requires
        token_at(old(reader)@.tokens, old(reader)@.pos) is Some,
    ensures
        parse_post(
            grammar::do_statement(old(reader)@.tokens, old(reader)@.pos, ctx.filepath@),
            old(reader)@,
            final(reader)@,
            out,
        ),
    decreases old(reader)@.tokens, old(reader)@.tokens.len() - old(reader)@.pos, 27int,
{
    proof {
        reveal(grammar::do_statement);
        reveal(grammar::block);
        reveal(grammar::expression);
        reader.lemma_bounds();
    }
    reader.next();
    match reader.skip("{") {
        Ok(_) => {},
        Err(m) => {
            return Err(reader.fault(reader.pos(), m));
        },
    }
    let blocknode = match block(reader, ctx) {
        Ok(v) => v,
        Err(e) => {
            return Err(e);
        },
    };
    match reader.skip("while") {
        Ok(_) => {},
        Err(m) => {
            return Err(reader.fault(reader.pos(), m));
        },
    }
    match reader.skip("(") {
        Ok(_) => {},
        Err(m) => {
            return Err(reader.fault(reader.pos(), m));
        },
    }
    let boolexpr = match expression(reader, ctx) {
        Ok(v) => v,
        Err(e) => {
            return Err(e);
        },
    };
    match reader.skip(")") {
        Ok(_) => {},
        Err(m) => {
            return Err(reader.fault(reader.pos(), m));
        },
    }
    Ok(Node::binary(NodeType::DoWhile, blocknode, boolexpr))
}

/// What follows `Type name` at the start of a statement.
fn typed_statement(reader: &mut Reader, ctx: &Ctx, typ: String, name: String, Ghost(start): Ghost<
    int,
>) -> (out: Result<Node, ParseError>)
    requires
        advanced(old(reader)@.tokens, start, old(reader)@.pos),
    ensures
        final(reader)@.tokens == old(reader)@.tokens,
        match grammar::typed_statement(
            old(reader)@.tokens,
            old(reader)@.pos,
            ctx.filepath@,
            typ@,
            name@,
        ) {
            Ok((tree, next)) => {
                &&& out is Ok
                &&& out->Ok_0@ == tree
                &&& final(reader)@.pos == next
                &&& advanced(old(reader)@.tokens, start, next)
                &&& tree.well_formed()
            },
            Err(f) => out is Err && out->Err_0@ == f,
        },
    decreases old(reader)@.tokens, old(reader)@.tokens.len() - old(reader)@.pos, 42int,
{
    proof {
        reveal(grammar::typed_statement);
        reveal(grammar::expression);
        reveal(grammar::function_parts);
    }
    match reader.sym() {
        Some(Token::Assign(_, _)) => {
            reader.next();
            let right_node = match expression(reader, ctx) {
                Ok(v) => v,
                Err(e) => {
                    return Err(e);
                },
            };
            let typed_var = Node::new(NodeType::TypedVar(typ, name));
            Ok(Node::binary(NodeType::Assign, typed_var, right_node))
        },
        Some(Token::Paren1(_, _)) => {
            let (params, body) = match function_parts(reader, ctx) {
                Ok(v) => v,
                Err(e) => {
                    return Err(e);
                },
            };
            Ok(Node::binary(NodeType::FunDef(name, ctx.filepath.clone()), params, body))
        },
        Some(x) => {
            let m = joined(owned("Unexpected token: "), x.text().as_str());
            Err(reader.fault(reader.pos(), m))
        },
        None => Err(reader.fault(reader.pos(), owned("Unexpected end of tokens."))),
    }
}

/// A statement that begins with a name: `Type name ...`, `name = ...`, or
/// an expression.
fn name_statement(reader: &mut Reader, ctx: &Ctx) -> (out: Result<Node, ParseError>)
    requires
        token_at(old(reader)@.tokens, old(reader)@.pos) is Some,
        old(reader)@.tokens[old(reader)@.pos] is Name,
    ensures
        parse_post(
            grammar::statement(old(reader)@.tokens, old(reader)@.pos, ctx.filepath@),
            old(reader)@,
            final(reader)@,
            out,
        ),
    decreases old(reader)@.tokens, old(reader)@.tokens.len() - old(reader)@.pos, 27int,
{
    proof {
        reveal(grammar::statement);
        reveal(grammar::typed_statement);
        reveal(grammar::expression);
    }
    let ghost start = reader@.pos;
    match reader.sym() {
        Some(Token::Name(s, _, _)) => match reader.peek() {
            Some(Token::Name(name, _, _)) => {
                reader.next();
                reader.next();
                typed_statement(reader, ctx, s, name, Ghost(start))
            },
            Some(Token::Assign(_, _)) => {
                reader.next();
                reader.next();
                match expression(reader, ctx) {
                    Ok(right_node) => {
                        let var = Node::new(NodeType::Name(s));
                        Ok(Node::binary(NodeType::Assign, var, right_node))
                    },
                    Err(e) => Err(e),
                }
            },
            _ => expression(reader, ctx),
        },
        _ => unreached(),
    }
}

/// `while ( expression ) { block }`. The cursor must stand on `while`.
fn while_statement(reader: &mut Reader, ctx: &Ctx) -> (out: Result<Node, ParseError>)
    requires
        token_at(old(reader)@.tokens, old(reader)@.pos) is Some,
        old(reader)@.tokens[old(reader)@.pos] is While,
    ensures
        parse_post(
            grammar::statement(old(reader)@.tokens, old(reader)@.pos, ctx.filepath@),
            old(reader)@,
            final(reader)@,
            out,
        ),
    decreases old(reader)@.tokens, old(reader)@.tokens.len() - old(reader)@.pos, 27int,
{
    proof {
        reveal(grammar::statement);
        reveal(grammar::guarded_block);
        reader.lemma_bounds();
    }
    reader.next();
    match guarded_block(reader, ctx) {
        Ok((boolexpr, blocknode)) => Ok(Node::binary(NodeType::While, boolexpr, blocknode)),
        Err(e) => Err(e),
    }
}

/// `return expression`. The cursor must stand on `return`.
fn return_statement(reader: &mut Reader, ctx: &Ctx) -> (out: Result<Node, ParseError>)
    requires
        token_at(old(reader)@.tokens, old(reader)@.pos) is Some,
        old(reader)@.tokens[old(reader)@.pos] is Return,
    ensures
        parse_post(
            grammar::statement(old(reader)@.tokens, old(reader)@.pos, ctx.filepath@),
            old(reader)@,
            final(reader)@,
            out,
        ),
    decreases old(reader)@.tokens, old(reader)@.tokens.len() - old(reader)@.pos, 27int,
{
    proof {
        reveal(grammar::statement);
        reveal(grammar::expression);
        reader.lemma_bounds();
    }
    reader.next();
    match expression(reader, ctx) {
        Ok(val) => Ok(Node::unary(NodeType::Return, val)),
        Err(e) => Err(e),
    }
}

/// `statement`: an assignment, a local function, a conditional, a loop, a
/// `return`, or an expression.
fn statement(reader: &mut Reader, ctx: &Ctx) -> (out: Result<Node, ParseError>)
    ensures
        parse_post(
            grammar::statement(old(reader)@.tokens, old(reader)@.pos, ctx.filepath@),
            old(reader)@,
            final(reader)@,
            out,
        ),
    decreases old(reader)@.tokens, old(reader)@.tokens.len() - old(reader)@.pos, 28int,
{
    proof {
        reveal(grammar::statement);
        reveal(grammar::do_statement);
        reveal(grammar::for_statement);
        reveal(grammar::expression);
    }
    match reader.sym() {
        Some(Token::Name(_, _, _)) => name_statement(reader, ctx),
        Some(Token::If(_, _)) => if_statement(reader, ctx),
        Some(Token::While(_, _)) => while_statement(reader, ctx),
        Some(Token::Do(_, _)) => do_statement(reader, ctx),
        Some(Token::For(_, _)) => for_statement(reader, ctx),
        Some(Token::Return(_, _)) => return_statement(reader, ctx),
        _ => expression(reader, ctx),
    }
}

/// A statement and the `;` behind it, if there is one.
fn terminated_statement(reader: &mut Reader, ctx: &Ctx) -> (out: Result<Node, ParseError>)
    ensures
        parse_post(
            grammar::terminated_statement(old(reader)@.tokens, old(reader)@.pos, ctx.filepath@),
            old(reader)@,
            final(reader)@,
            out,
        ),
    decreases old(reader)@.tokens, old(reader)@.tokens.len() - old(reader)@.pos, 29int,
{
    proof {
        reveal(grammar::terminated_statement);
        reveal(grammar::statement);
    }
    match statement(reader, ctx) {
        Ok(snode) => {
            match reader.sym() {
                Some(Token::EndSt(_, _)) => {
                    reader.next();
                },
                _ => {},
            }
            Ok(snode)
        },
        Err(e) => Err(e),
    }
}

/// What a parser of declarations promises: the reader keeps its tokens;
/// where the grammar yields declarations, they are well formed and stand
/// behind what `globals` and the class registry held before, and the cursor
/// has moved forward to the position that the grammar gives; where the
/// grammar yields a fault, the parser returns that fault. The trees of the
/// classes, the first values of fields and the bodies of methods, are well
/// formed too.
pub open spec fn decl_post(
    meant: Result<Declared, crate::utils::Fault>,
    before: ReaderView,
    after: ReaderView,
    globals0: Seq<Ast>,
    globals1: Seq<Ast>,
    classes0: Seq<ClassView>,
    classes1: Seq<ClassView>,
    out: Result<(), ParseError>,
) -> bool {
    &&& after.tokens == before.tokens
    &&& match meant {
        Ok(d) => {
            &&& out is Ok
            &&& after.pos == d.next
            &&& advanced(before.tokens, before.pos, d.next)
            &&& globals1 == globals0 + d.globals
            &&& classes1 == classes0 + d.classes
            &&& all_well_formed(d.globals)
            &&& all_declarations(d.globals)
            &&& all_classes_well_formed(d.classes)
        },
        Err(f) => out is Err && out->Err_0@ == f,
    }
}

/// The parameters of a method, one for every name of its parameter list.
fn method_params(params: &Node) -> (out: Vec<ParamObj>)
    requires
        forall|i: int| 0 <= i < params@.children.len() ==> (#[trigger] params@.children[i]).is_plain_name(),
    ensures
        param_views(out@) == grammar::method_params(params@),
{
    let mut args: Vec<ParamObj> = Vec::new();
    let mut i: usize = 0;
    proof {
        lemma_node_views(params.children@);
    }
    while i < params.children.len()
        invariant
            i <= params.children.len(),
            params@.children.len() == params.children.len(),
            forall|k: int| 0 <= k < params.children.len() ==> params@.children[k] == params.children[k]@,
            forall|k: int|
                0 <= k < params@.children.len() ==> (#[trigger] params@.children[k]).is_plain_name(),
            args.len() == i,
            forall|k: int|
                0 <= k < i ==> (#[trigger] args[k])@ == (ParamView {
                    typ: "var"@,
                    name: params@.children[k].kind->Name_0,
                    fieldinit: false,
                }),
        decreases params.children.len() - i,
    {
        assert(params@.children[i as int].is_plain_name());
        match &params.children[i].nodetype {
            NodeType::Name(s) => {
                args.push(ParamObj { typ: owned("var"), name: s.clone(), fieldinit: false });
            },
            _ => {
                assert(false);
            },
        }
        i += 1;
    }
    assert(param_views(args@) =~= grammar::method_params(params@));
    args
}

/// A constructor of the class `class_name`. The cursor must stand on the
/// name of the class, before an opening round bracket.
fn constructor_member(reader: &mut Reader, ctx: &Ctx, class_name: &String) -> (out: Result<
    Node,
    ParseError,
>)
    requires
        token_at(old(reader)@.tokens, old(reader)@.pos) is Some,
    ensures
        parse_post(
            grammar::constructor_member(
                old(reader)@.tokens,
                old(reader)@.pos,
                ctx.filepath@,
                class_name@,
            ),
            old(reader)@,
            final(reader)@,
            out,
        ),
        out matches Ok(n) ==> n@.is_declaration(),
{
    proof {
        reveal(grammar::constructor_member);
        reveal(grammar::block);
        reader.lemma_bounds();
    }
    reader.next();
    let params = match constructor_paramlist(reader) {
        Ok(v) => v,
        Err(e) => {
            return Err(e);
        },
    };
    match reader.sym() {
        Some(Token::Block1(_, _)) => {
            reader.next();
            match block(reader, ctx) {
                Ok(body) => Ok(
                    Node::binary(
                        NodeType::Constructor(class_name.clone(), ctx.filepath.clone()),
                        params,
                        body,
                    ),
                ),
                Err(e) => Err(e),
            }
        },
        Some(Token::EndSt(_, _)) => {
            reader.next();
            Ok(
                Node::binary(
                    NodeType::Constructor(class_name.clone(), ctx.filepath.clone()),
                    params,
                    Node::new(NodeType::Null),
                ),
            )
        },
        Some(x) => {
            let m = joined(owned("Expected constructor body, got: "), x.text().as_str());
            Err(reader.fault(reader.pos(), m))
        },
        None => Err(reader.fault(reader.pos(), owned("Unexpected end of tokens."))),
    }
}

/// A field or a method, added to `class`. The cursor must stand on the
/// member's type, `mtype`.
fn plain_member(class: &mut Class, reader: &mut Reader, ctx: &Ctx, mtype: &String) -> (out: Result<
    (),
    ParseError,
>)
    requires
        token_at(old(reader)@.tokens, old(reader)@.pos) is Some,
    ensures
        final(reader)@.tokens == old(reader)@.tokens,
        match grammar::plain_member(
            old(reader)@.tokens,
            old(reader)@.pos,
            ctx.filepath@,
            mtype@,
            old(class)@,
        ) {
            Ok((c, p)) => {
                &&& out is Ok
                &&& final(class)@ == c
                &&& c.name == old(class)@.name
                &&& final(reader)@.pos == p
                &&& advanced(old(reader)@.tokens, old(reader)@.pos, p)
                &&& old(class)@.well_formed() ==> c.well_formed()
            },
            Err(f) => out is Err && out->Err_0@ == f,
        },
{
    proof {
        reveal(grammar::plain_member);
        reveal(grammar::function_parts);
        reveal(grammar::expression);
        reader.lemma_bounds();
    }
    match reader.next() {
        Some(Token::Name(fieldname, _, _)) => match reader.next() {
            Some(Token::Paren1(_, _)) => match function_parts(reader, ctx) {
                Ok((param_node, body)) => {
                    let args = method_params(&param_node);
                    let method = Function {
                        name: fieldname,
                        file: ctx.filepath.clone(),
                        body,
                        params: args,
                    };
                    class.add_method(method);
                    Ok(())
                },
                Err(e) => Err(e),
            },
            Some(Token::EndSt(_, _)) => {
                reader.next();
                class.add_field(mtype, &fieldname, Node::new(NodeType::Null));
                Ok(())
            },
            Some(Token::Assign(_, _)) => {
                reader.next();
                match expression(reader, ctx) {
                    Ok(val) => match reader.skip(";") {
                        Ok(_) => {
                            class.add_field(mtype, &fieldname, val);
                            Ok(())
                        },
                        Err(m) => Err(reader.fault(reader.pos(), m)),
                    },
                    Err(e) => Err(e),
                }
            },
            Some(x) => {
                let m = joined(
                    owned("Unexpected token when parsing class member: "),
                    x.text().as_str(),
                );
                Err(reader.fault(reader.pos(), m))
            },
            None => Err(reader.fault(reader.pos(), owned("Unexpected end of tokens."))),
        },
        Some(x) => {
            let m = joined(owned("Expected class member name, got "), x.text().as_str());
            Err(reader.fault(reader.pos(), m))
        },
        None => Err(reader.fault(reader.pos(), owned("Unexpected end of tokens."))),
    }
}

/// The constructor of a class that wrote none.
fn default_constructor(class_name: &String, ctx: &Ctx) -> (out: Node)
    ensures
        out@ == grammar::default_constructor(class_name@, ctx.filepath@),
        out@.well_formed(),
        out@.is_declaration(),
{
    Node::binary(
        NodeType::Constructor(class_name.clone(), ctx.filepath.clone()),
        Node::new(NodeType::ParamList),
        Node::new(NodeType::Null),
    )
}

/// The members of a class up to its closing brace: fields and methods go
/// into `class`, constructors behind what `globals` holds. A class without
/// a constructor of its own gets one without parameters and body.
fn readmembers(class: &mut Class, reader: &mut Reader, globals: &mut Vec<Node>, ctx: &Ctx) -> (out:
    Result<(), ParseError>)
    ensures
        final(reader)@.tokens == old(reader)@.tokens,
        match grammar::members(
            old(reader)@.tokens,
            old(reader)@.pos,
            ctx.filepath@,
            old(class)@,
            Seq::empty(),
        ) {
            Ok((c, ctors, p)) => {
                let made = grammar::constructors_of(ctors, old(class)@.name, ctx.filepath@);
                &&& out is Ok
                &&& final(class)@ == c
                &&& final(reader)@.pos == p
                &&& old(reader)@.pos <= p
                &&& node_views(final(globals)@) == node_views(old(globals)@) + made
                &&& all_well_formed(made)
                &&& all_declarations(made)
                &&& old(class)@.well_formed() ==> c.well_formed()
            },
            Err(f) => out is Err && out->Err_0@ == f,
        },
{
    let ghost toks = reader@.tokens;
    let ghost start = reader@.pos;
    let ghost class0 = class@;
    let ghost globals0 = node_views(globals@);
    let ghost ctors = Seq::<Ast>::empty();
    let mut got_constructor = false;
    assert(globals0 + ctors =~= globals0);
    while reader.more()
        invariant
            reader@.tokens == toks,
            toks == old(reader)@.tokens,
            start == old(reader)@.pos,
            start <= reader@.pos,
            class0 == old(class)@,
            class@.name == class0.name,
            class0.well_formed() ==> class@.well_formed(),
            globals0 == node_views(old(globals)@),
            node_views(globals@) == globals0 + ctors,
            all_well_formed(ctors),
            all_declarations(ctors),
            got_constructor == (ctors.len() > 0),
            grammar::members(toks, start, ctx.filepath@, class0, Seq::empty()) == grammar::members(
                toks,
                reader@.pos,
                ctx.filepath@,
                class@,
                ctors,
            ),
        decreases toks.len() - reader@.pos,
    {
        proof {
            reveal(grammar::members);
        }
        match reader.sym() {
            Some(Token::Name(mtype, _, _)) => {
                let is_constructor = mtype == class.name && match reader.peek() {
                    Some(Token::Paren1(_, _)) => true,
                    _ => false,
                };
                if is_constructor {
                    match constructor_member(reader, ctx, &class.name) {
                        Ok(ctor) => {
                            proof {
                                lemma_node_views_push(globals@, ctor);
                                assert((globals0 + ctors).push(ctor@) =~= globals0 + ctors.push(ctor@));
                                ctors = ctors.push(ctor@);
                            }
                            globals.push(ctor);
                            got_constructor = true;
                        },
                        Err(e) => {
                            return Err(e);
                        },
                    }
                } else {
                    match plain_member(class, reader, ctx, &mtype) {
                        Ok(_) => {},
                        Err(e) => {
                            return Err(e);
                        },
                    }
                }
            },
            Some(Token::Block2(_, _)) => {
                if !got_constructor {
                    let ctor = default_constructor(&class.name, ctx);
                    proof {
                        lemma_node_views_push(globals@, ctor);
                        assert(globals0.push(ctor@) =~= globals0 + seq![ctor@]);
                    }
                    globals.push(ctor);
                }
                return Ok(());
            },
            Some(x) => {
                let m = joined(
                    owned("Unexpected first token when parsing class member "),
                    x.text().as_str(),
                );
                return Err(reader.fault(reader.pos(), m));
            },
            None => {
                assert(false);
            },
        }
    }
    proof {
        reveal(grammar::members);
    }
    if !got_constructor {
        let ctor = default_constructor(&class.name, ctx);
        proof {
            lemma_node_views_push(globals@, ctor);
            assert(globals0.push(ctor@) =~= globals0 + seq![ctor@]);
        }
        globals.push(ctor);
    }
    Ok(())
}

/// `class Name { members }`: the class is registered, its constructors go
/// behind what `globals` holds. The cursor must stand on `class`.
fn class(reader: &mut Reader, objsys: &mut ObjSys, globals: &mut Vec<Node>, ctx: &Ctx) -> (out:
    Result<(), ParseError>)
    requires
        token_at(old(reader)@.tokens, old(reader)@.pos) is Some,
    ensures
        decl_post(
            match grammar::class_decl(old(reader)@.tokens, old(reader)@.pos, ctx.filepath@) {
                Ok((c, ctors, p)) => Ok(Declared { globals: ctors, classes: seq![c], next: p }),
                Err(f) => Err(f),
            },
            old(reader)@,
            final(reader)@,
            node_views(old(globals)@),
            node_views(final(globals)@),
            old(objsys)@.classes,
            final(objsys)@.classes,
            out,
        ),
        final(objsys)@.instances == old(objsys)@.instances,
        out is Err ==> final(objsys)@.classes == old(objsys)@.classes,
{
    proof {
        reveal(grammar::class_decl);
        reader.lemma_bounds();
    }
    match reader.next() {
        Some(Token::Name(classname, _, _)) => {
            let mut class = objsys.new_class(classname);
            reader.next();
            match reader.skip("{") {
                Ok(_) => {},
                Err(m) => {
                    return Err(reader.fault(reader.pos(), m));
                },
            }
            match readmembers(&mut class, reader, globals, ctx) {
                Ok(_) => {},
                Err(e) => {
                    return Err(e);
                },
            }
            match reader.skip("}") {
                Ok(_) => {},
                Err(m) => {
                    return Err(reader.fault(reader.pos(), m));
                },
            }
            proof {
                assert(objsys@.classes.push(class@) =~= objsys@.classes + seq![class@]);
            }
            objsys.register_class(class);
            Ok(())
        },
        Some(x) => {
            let m = joined(owned("Expected class name. Got "), x.text().as_str());
            Err(reader.fault(reader.pos(), m))
        },
        None => Err(reader.fault(reader.pos(), owned("Unexpected end of tokens."))),
    }
}

/// `Type name paramList { block }`: a global function, which goes behind
/// what `globals` holds. The cursor must stand on the type.
fn function_decl(reader: &mut Reader, globals: &mut Vec<Node>, ctx: &Ctx, Ghost(classes): Ghost<
    Seq<ClassView>,
>) -> (out: Result<(), ParseError>)
    requires
        token_at(old(reader)@.tokens, old(reader)@.pos) is Some,
        old(reader)@.tokens[old(reader)@.pos] is Name,
    ensures
        decl_post(
            grammar::decl(old(reader)@.tokens, old(reader)@.pos, ctx.filepath@),
            old(reader)@,
            final(reader)@,
            node_views(old(globals)@),
            node_views(final(globals)@),
            classes,
            classes,
            out,
        ),
{
    proof {
        reveal(grammar::decl);
        reveal(grammar::function_parts);
        reader.lemma_bounds();
    }
    match reader.next() {
        Some(Token::Name(fname, _, _)) => {
            reader.next();
            match function_parts(reader, ctx) {
                Ok((params, body)) => {
                    let node = Node::binary(
                        NodeType::FunDef(fname, ctx.filepath.clone()),
                        params,
                        body,
                    );
                    proof {
                        lemma_node_views_push(globals@, node);
                        assert(node_views(globals@).push(node@) =~= node_views(globals@) + seq![
                            node@,
                        ]);
                        assert(classes =~= classes + Seq::<ClassView>::empty());
                    }
                    globals.push(node);
                    Ok(())
                },
                Err(e) => Err(e),
            }
        },
        _ => Err(reader.fault(reader.pos(), owned("Expected function name."))),
    }
}

/// Puts the declarations of `fresh` behind what `globals` holds.
fn append_all(globals: &mut Vec<Node>, fresh: Vec<Node>)
    ensures
        node_views(final(globals)@) == node_views(old(globals)@) + node_views(fresh@),
{
    let mut fresh = fresh;
    let ghost added = fresh@;
    globals.append(&mut fresh);
    proof {
        lemma_node_views(old(globals)@);
        lemma_node_views(added);
        lemma_node_views(globals@);
        assert(node_views(globals@) =~= node_views(old(globals)@) + node_views(added));
    }
}

/// Parses one top-level declaration: a function, which goes behind what
/// `globals` holds, or a class, which is registered in `objsys` and whose
/// constructors go behind what `globals` holds. Where the declaration is
/// rejected, `globals` and `objsys` are left as they were.
pub fn decl(reader: &mut Reader, objsys: &mut ObjSys, globals: &mut Vec<Node>, ctx: &Ctx) -> (out:
    Result<(), ParseError>)
    ensures
        decl_post(
            grammar::decl(old(reader)@.tokens, old(reader)@.pos, ctx.filepath@),
            old(reader)@,
            final(reader)@,
            node_views(old(globals)@),
            node_views(final(globals)@),
            old(objsys)@.classes,
            final(objsys)@.classes,
            out,
        ),
        final(objsys)@.instances == old(objsys)@.instances,
        out is Err ==> node_views(final(globals)@) == node_views(old(globals)@) && final(objsys)@
            == old(objsys)@,
{
    proof {
        reveal(grammar::decl);
    }
    let mut fresh: Vec<Node> = Vec::new();
    proof {
        assert(node_views(fresh@) =~= Seq::<Ast>::empty());
    }
    let out = match reader.sym() {
        Some(Token::Name(_, _, _)) => function_decl(reader, &mut fresh, ctx, Ghost(objsys@.classes)),
        Some(Token::Class(_, _)) => class(reader, objsys, &mut fresh, ctx),
        Some(Token::Import(_, _)) => Err(
            reader.fault(reader.pos(), owned("Directives must appear before any declarations.")),
        ),
        Some(x) => {
            let m = joined(owned("Expected top level declaration. Got: "), x.text().as_str());
            Err(reader.fault(reader.pos(), m))
        },
        None => Err(reader.fault(reader.pos(), owned("Unexpected end of tokens."))),
    };
    if out.is_ok() {
        proof {
            assert(Seq::<Ast>::empty() + node_views(fresh@) =~= node_views(fresh@));
        }
        append_all(globals, fresh);
    }
    out
}

/// Takes back what a rejected file has declared: `globals` and the classes
/// of `objsys` are cut to the given lengths.
fn rewind(globals: &mut Vec<Node>, objsys: &mut ObjSys, nodes: usize, classes: usize)
    requires
        nodes <= old(globals).len(),
        classes <= old(objsys).classes.len(),
    ensures
        node_views(final(globals)@) == node_views(old(globals)@).subrange(0, nodes as int),
        final(objsys)@.classes == old(objsys)@.classes.subrange(0, classes as int),
        final(objsys)@.instances == old(objsys)@.instances,
{
    globals.truncate(nodes);
    objsys.classes.truncate(classes);
    proof {
        lemma_node_views(old(globals)@);
        lemma_node_views(globals@);
        assert(node_views(globals@) =~= node_views(old(globals)@).subrange(0, nodes as int));
        assert(objsys@.classes =~= old(objsys)@.classes.subrange(0, classes as int));
    }
}

/// The `import "path";` directives at the cursor: the paths, in order.
fn directives(reader: &mut Reader) -> (out: Result<Vec<String>, ParseError>)
    ensures
        final(reader)@.tokens == old(reader)@.tokens,
        match grammar::directives(old(reader)@.tokens, old(reader)@.pos, Seq::empty()) {
            Ok((paths, p)) => {
                &&& out is Ok
                &&& string_views(out->Ok_0@) == paths
                &&& final(reader)@.pos == p
                &&& old(reader)@.pos <= p
            },
            Err(f) => out is Err && out->Err_0@ == f,
        },
{
    let ghost toks = reader@.tokens;
    let ghost start = reader@.pos;
    let mut imports: Vec<String> = Vec::new();
    assert(string_views(imports@) =~= Seq::<Seq<char>>::empty());
    while reader.more()
        invariant
            reader@.tokens == toks,
            toks == old(reader)@.tokens,
            start == old(reader)@.pos,
            start <= reader@.pos,
            grammar::directives(toks, start, Seq::empty()) == grammar::directives(
                toks,
                reader@.pos,
                string_views(imports@),
            ),
        decreases toks.len() - reader@.pos,
    {
        proof {
            reveal(grammar::directives);
        }
        match reader.sym() {
            Some(Token::Import(_, _)) => match reader.next() {
                Some(Token::Str(s, _, _, _)) => {
                    reader.next();
                    match reader.skip(";") {
                        Ok(_) => {},
                        Err(m) => {
                            return Err(reader.fault(reader.pos(), m));
                        },
                    }
                    proof {
                        assert(string_views(imports@.push(s)) =~= string_views(imports@).push(s@));
                    }
                    imports.push(s);
                },
                _ => {
                    return Err(reader.fault(reader.pos(), owned("Expected string after 'import'.")));
                },
            },
            _ => {
                return Ok(imports);
            },
        }
    }
    proof {
        reveal(grammar::directives);
    }
    Ok(imports)
}

/// Parses a file: its `import` directives, then declarations up to the
/// last token, which must be left over alone. Functions and constructors go
/// behind what `globals` holds, classes into `objsys`; the result is the
/// list of imported paths.
pub fn parse(reader: &mut Reader, globals: &mut Vec<Node>, objsys: &mut ObjSys, ctx: &Ctx) -> (out:
    Result<Vec<String>, ParseError>)
    ensures
        final(reader)@.tokens == old(reader)@.tokens,
        match grammar::program(old(reader)@.tokens, old(reader)@.pos, ctx.filepath@) {
            Ok(prog) => {
                &&& out is Ok
                &&& string_views(out->Ok_0@) == prog.imports
                &&& final(reader)@.pos == prog.next
                &&& node_views(final(globals)@) == node_views(old(globals)@) + prog.globals
                &&& final(objsys)@.classes == old(objsys)@.classes + prog.classes
                &&& final(objsys)@.instances == old(objsys)@.instances
                &&& all_well_formed(prog.globals)
                &&& all_declarations(prog.globals)
                &&& all_classes_well_formed(prog.classes)
            },
            Err(f) => {
                &&& out is Err
                &&& out->Err_0@ == f
                &&& node_views(final(globals)@) == node_views(old(globals)@)
                &&& final(objsys)@ == old(objsys)@
            },
        },
{
    proof {
        reveal(grammar::program);
    }
    let ghost toks = reader@.tokens;
    let ghost globals0 = node_views(globals@);
    let ghost classes0 = objsys@.classes;
    let nodes = globals.len();
    let classes = objsys.classes.len();
    proof {
        lemma_node_views(globals@);
    }
    let imports = match directives(reader) {
        Ok(v) => v,
        Err(e) => {
            return Err(e);
        },
    };
    let ghost first = reader@.pos;
    let ghost so_far = Declared {
        globals: Seq::<Ast>::empty(),
        classes: Seq::<ClassView>::empty(),
        next: first,
    };
    assert(globals0 + so_far.globals =~= globals0);
    assert(classes0 + so_far.classes =~= classes0);
    while reader.more()
        invariant
            reader@.tokens == toks,
            toks == old(reader)@.tokens,
            globals0 == node_views(old(globals)@),
            classes0 == old(objsys)@.classes,
            first <= reader@.pos,
            grammar::directives(toks, old(reader)@.pos, Seq::empty()) == Ok::<
                (Seq<Seq<char>>, int),
                crate::utils::Fault,
            >((string_views(imports@), first)),
            node_views(globals@) == globals0 + so_far.globals,
            objsys@.classes == classes0 + so_far.classes,
            objsys@.instances == old(objsys)@.instances,
            nodes == globals0.len(),
            classes == classes0.len(),
            all_well_formed(so_far.globals),
            all_declarations(so_far.globals),
            all_classes_well_formed(so_far.classes),
            grammar::decls(
                toks,
                first,
                ctx.filepath@,
                Declared { globals: Seq::empty(), classes: Seq::empty(), next: first },
            ) == grammar::decls(toks, reader@.pos, ctx.filepath@, so_far),
        decreases toks.len() - reader@.pos,
    {
        proof {
            reveal(grammar::program);
            reveal(grammar::decls);
        }
        let ghost d = grammar::decl(toks, reader@.pos, ctx.filepath@);
        match decl(reader, objsys, globals, ctx) {
            Ok(_) => {
                proof {
                    let dd = d->Ok_0;
                    assert((globals0 + so_far.globals) + dd.globals =~= globals0 + (so_far.globals
                        + dd.globals));
                    assert((classes0 + so_far.classes) + dd.classes =~= classes0 + (so_far.classes
                        + dd.classes));
                    so_far = Declared {
                        globals: so_far.globals + dd.globals,
                        classes: so_far.classes + dd.classes,
                        next: dd.next,
                    };
                }
            },
            Err(e) => {
                proof {
                    lemma_node_views(globals@);
                    assert((globals0 + so_far.globals).subrange(0, nodes as int) =~= globals0);
                    assert((classes0 + so_far.classes).subrange(0, classes as int) =~= classes0);
                }
                rewind(globals, objsys, nodes, classes);
                return Err(e);
            },
        }
    }
    proof {
        reveal(grammar::decls);
    }
    if reader.pos() < usize::MAX && reader.pos() + 1 == reader.len() {
        Ok(imports)
    } else {
        proof {
            lemma_node_views(globals@);
            assert((globals0 + so_far.globals).subrange(0, nodes as int) =~= globals0);
            assert((classes0 + so_far.classes).subrange(0, classes as int) =~= classes0);
        }
        rewind(globals, objsys, nodes, classes);
        Err(reader.fault(reader.pos(), owned("Unexpected index at end of parse.")))
    }
}

} // verus!
