//! The tree-walking evaluator.
//!
//! An evaluation works on a [`Runtime`]: the activation stack, the object
//! system, the file whose lookup table resolves calls, the lines printed so
//! far, and a budget of steps. Every node that is evaluated costs one step;
//! an evaluation that has no steps left stops with
//! [`EvalError::Exhausted`], so every evaluation ends.
//!
//! What an evaluation yields is stated by the functions of
//! [`crate::semantics`], one for every function here.

use crate::context::Ctx;
use crate::grammar::Program;
use crate::laws::{law_later_merge_decides, law_range_resolves_to_last};
use crate::lexer::chars_of;
use crate::linker::{
    decl_name, entries_of, file_program, filecurse, find_table, import_entries, imports_of,
    link_of, lookup, memo_at, memo_ok, memo_views, nothing_linked, resolve, source_views,
    table_ok, table_views, visit, Link, LinkError, LookTable, MemoEntry, MemoView, SourceFile,
    SourceView, TableView, Visit,
};
use crate::meaning::{
    current, equal_lists, equal_views, lemma_value_views_add, lemma_value_views_push, this_of,
};
use crate::node::{lemma_node_views, node_views, Ast, AstKind, Node, NodeType};
use crate::object::{field_views, ClassView, Field, Function};
use crate::objsys::{fresh_id, ObjSys, ObjSysView};
use crate::ops::{int_arith, int_negate, EvalError};
use crate::reach::{law_visit_needs, reaches};
use crate::semantics::{
    arith_run, assign_run, bits_run, bound_params, call_run, compare_run, conditional_run,
    construct_run, fields_run,
    for_inner_run, for_run, invoke_run, left, logic_run, loop_run, method_run, name_run,
    params_tree, printed, resolved, rounds_run, run, scoped_run, shown, shown_items, statement_run,
    expression_run, statements_run, step_run, stored, str_from, truth_run, value_run, values_run,
    Failure, FlowView, Machine, Run, World,
};
use crate::stack::{lemma_scopes_kept, Frame, Stack};
use crate::text::{joined, owned, signed_decimal, string_of_chars, string_views};
use crate::utils::Fault;
use crate::value::{lemma_value_views, value_views, Floats, Value, ValueView};
use vstd::prelude::*;

verus! {

/// The state of a running program.
pub struct Runtime {
    pub store: Stack,
    pub objsys: ObjSys,
    pub ctx: Ctx,
    pub output: Vec<String>,
    pub fuel: u64,
    pub ids: Vec<String>,
}

/// How a statement ends: in the ordinary way, with its value, or on its
/// way out of the current call with the value to return.
#[derive(Debug)]
pub enum Flow {
    Normal(Value),
    Return(Value),
}

/// The stack `t` has the calls of `s`, unchanged but for the bindings of
/// the current call, and the current call has as many scopes as before.
pub open spec fn balanced(s: Seq<Seq<Frame>>, t: Seq<Seq<Frame>>) -> bool {
    &&& t.len() == s.len()
    &&& s.len() > 0 ==> t.drop_last() == s.drop_last()
    &&& s.len() > 0 && s.last().len() > 0 ==> t.last().len() == s.last().len()
}

/// The lines of `a` are the first lines of `b`.
pub open spec fn grown(a: Seq<Seq<char>>, b: Seq<Seq<char>>) -> bool {
    &&& a.len() <= b.len()
    &&& forall|i: int| 0 <= i < a.len() ==> #[trigger] a[i] == b[i]
}

/// What every evaluation keeps: steps are only used up, lines are only
/// added to the output, and an evaluation that succeeds leaves the stack
/// balanced.
pub open spec fn settled(before: Runtime, after: Runtime, ok: bool) -> bool {
    &&& after.fuel <= before.fuel
    &&& grown(string_views(before.output@), string_views(after.output@))
    &&& ok ==> balanced(before.store@, after.store@)
}

impl View for Runtime {
    type V = Machine;

    open spec fn view(&self) -> Machine {
        Machine {
            store: self.store@,
            objsys: self.objsys@,
            file: self.ctx.filepath@,
            output: string_views(self.output@),
            fuel: self.fuel as nat,
            ids: string_views(self.ids@),
        }
    }
}

impl View for Flow {
    type V = FlowView;

    open spec fn view(&self) -> FlowView {
        match self {
            Flow::Normal(v) => FlowView::Normal(v@),
            Flow::Return(v) => FlowView::Return(v@),
        }
    }
}

/// What a program is linked into, as the evaluator gets it.
pub open spec fn world(looktables: &Vec<LookTable>, globals: &Vec<Node>) -> World {
    World { tables: table_views(looktables@), globals: node_views(globals@) }
}

/// The kind of an error.
pub open spec fn kind_of(e: EvalError) -> Failure {
    match e {
        EvalError::Resolution(_) => Failure::Resolution,
        EvalError::Type(_) => Failure::Type,
        EvalError::Arithmetic(_) => Failure::Arithmetic,
        EvalError::Exhausted => Failure::Exhausted,
        EvalError::OutOfIds => Failure::OutOfIds,
        EvalError::Internal(_) => Failure::Internal,
    }
}

/// The evaluator does what the semantics says: where the semantics is
/// done, the evaluator returns that result and leaves that state; where it
/// fails, the evaluator returns an error of that kind and leaves the lines
/// that were printed until then.
pub open spec fn flow_post(meant: Run<FlowView>, after: Machine, out: Result<Flow, EvalError>) -> bool {
    match meant {
        Run::Done(flow, m) => out is Ok && out->Ok_0@ == flow && after == m,
        Run::Failed(k, lines) => out is Err && kind_of(out->Err_0) == k && after.output == lines,
        Run::Unknown => true,
    }
}

/// As [`flow_post`], for a value.
pub open spec fn value_post(meant: Run<ValueView>, after: Machine, out: Result<Value, EvalError>) -> bool {
    match meant {
        Run::Done(v, m) => out is Ok && out->Ok_0@ == v && after == m,
        Run::Failed(k, lines) => out is Err && kind_of(out->Err_0) == k && after.output == lines,
        Run::Unknown => true,
    }
}

/// As [`flow_post`], for a truth value.
pub open spec fn truth_post(meant: Run<bool>, after: Machine, out: Result<bool, EvalError>) -> bool {
    match meant {
        Run::Done(b, m) => out is Ok && out->Ok_0 == b && after == m,
        Run::Failed(k, lines) => out is Err && kind_of(out->Err_0) == k && after.output == lines,
        Run::Unknown => true,
    }
}

/// As [`flow_post`], for a sequence of values.
pub open spec fn values_post(
    meant: Run<Seq<ValueView>>,
    after: Machine,
    out: Result<Vec<Value>, EvalError>,
) -> bool {
    match meant {
        Run::Done(vs, m) => out is Ok && value_views(out->Ok_0@) == vs && after == m,
        Run::Failed(k, lines) => out is Err && kind_of(out->Err_0) == k && after.output == lines,
        Run::Unknown => true,
    }
}

/// As [`flow_post`], for a change of the state alone.
pub open spec fn unit_post(meant: Run<()>, after: Machine, out: Result<(), EvalError>) -> bool {
    match meant {
        Run::Done(_, m) => out is Ok && after == m,
        Run::Failed(k, lines) => out is Err && kind_of(out->Err_0) == k && after.output == lines,
        Run::Unknown => true,
    }
}

fn internal<T>(msg: &str) -> (out: Result<T, EvalError>)
    ensures
        out is Err,
        kind_of(out->Err_0) == Failure::Internal,
{
    Err(EvalError::Internal(owned(msg)))
}

fn type_error<T>(msg: &str) -> (out: Result<T, EvalError>)
    ensures
        out is Err,
        kind_of(out->Err_0) == Failure::Type,
{
    Err(EvalError::Type(owned(msg)))
}

/// How values print one behind the other, separated by `sep`.
fn display_items<F: Floats>(items: &Vec<Value>, sep: &str, objsys: &ObjSys, floats: &F) -> (out:
    String)
    ensures
        shown_items(value_views(items@), 0, objsys@.instances, sep@, Seq::empty()) matches Some(t)
            ==> out@ == t,
    decreases items, 1int,
{
    let ghost vs = value_views(items@);
    let ghost all = shown_items(vs, 0, objsys@.instances, sep@, Seq::empty());
    let mut out = owned("");
    let mut i: usize = 0;
    proof {
        lemma_value_views(items@);
        reveal_strlit("");
        assert(out@ =~= Seq::<char>::empty());
    }
    while i < items.len()
        invariant
            i <= items.len(),
            vs == value_views(items@),
            vs.len() == items.len(),
            all == shown_items(vs, 0, objsys@.instances, sep@, Seq::empty()),
            all is Some ==> all == shown_items(vs, i as int, objsys@.instances, sep@, out@),
        decreases items.len() - i,
    {
        proof {
            lemma_value_views(items@);
        }
        let ghost before = out@;
        if i > 0 {
            out = joined(out, sep);
        }
        let part = display(&items[i], objsys, floats);
        out = joined(out, part.as_str());
        i += 1;
    }
    out
}

/// How a value prints.
pub fn display<F: Floats>(v: &Value, objsys: &ObjSys, floats: &F) -> (out: String)
    ensures
        shown(v@, objsys@.instances) matches Some(t) ==> out@ == t,
    decreases v, 0int,
{
    match v {
        Value::Int(i) => signed_decimal(*i),
        Value::Double(bits) => floats.show(*bits),
        Value::Bool(b) => if *b {
            owned("true")
        } else {
            owned("false")
        },
        Value::Str(s) => s.clone(),
        Value::List(items) => {
            let inner = display_items(items, ", ", objsys, floats);
            joined(joined(owned("["), inner.as_str()), "]")
        },
        Value::Reference(id) => match objsys.class_of(id) {
            Some(name) => joined(joined(owned("Instance of '"), name.as_str()), "'"),
            None => owned("Instance of an unknown class"),
        },
        Value::Class(name) => name.clone(),
        Value::Function(_) => owned("Function"),
        Value::Null => owned("null"),
    }
}

/// Whether two lists hold equal values at every place.
fn items_equal<F: Floats>(x: &Vec<Value>, y: &Vec<Value>, floats: &F) -> (out: bool)
    ensures
        equal_lists(value_views(x@), value_views(y@), 0) is Some ==> out == equal_lists(
            value_views(x@),
            value_views(y@),
            0,
        )->0,
    decreases x, 1int,
{
    proof {
        lemma_value_views(x@);
        lemma_value_views(y@);
    }
    if x.len() != y.len() {
        return false;
    }
    let mut i: usize = 0;
    while i < x.len()
        invariant
            i <= x.len(),
            x.len() == y.len(),
            equal_lists(value_views(x@), value_views(y@), 0) is Some ==> equal_lists(
                value_views(x@),
                value_views(y@),
                0,
            ) == equal_lists(value_views(x@), value_views(y@), i as int),
        decreases x.len() - i,
    {
        proof {
            lemma_value_views(x@);
            lemma_value_views(y@);
        }
        if !values_equal(&x[i], &y[i], floats) {
            return false;
        }
        i += 1;
    }
    true
}

/// Whether two values are equal: numbers by value (an integer beside a
/// double as the double nearest to it), truth values, strings and lists by
/// value, instances by id.
pub fn values_equal<F: Floats>(a: &Value, b: &Value, floats: &F) -> (out: bool)
    ensures
        equal_views(a@, b@) is Some ==> out == equal_views(a@, b@)->0,
    decreases a, 0int,
{
    match (a, b) {
        (Value::Int(x), Value::Int(y)) => *x == *y,
        (Value::Int(x), Value::Double(y)) => floats.equal(floats.from_int(*x), *y),
        (Value::Double(x), Value::Int(y)) => floats.equal(*x, floats.from_int(*y)),
        (Value::Double(x), Value::Double(y)) => floats.equal(*x, *y),
        (Value::Bool(x), Value::Bool(y)) => *x == *y,
        (Value::Str(x), Value::Str(y)) => *x == *y,
        (Value::Reference(x), Value::Reference(y)) => *x == *y,
        (Value::Class(x), Value::Class(y)) => *x == *y,
        (Value::Null, Value::Null) => true,
        (Value::List(x), Value::List(y)) => items_equal(x, y, floats),
        _ => false,
    }
}

/// The index in the globals to which `name` resolves from the file `file`.
fn resolve_call(looktables: &Vec<LookTable>, globals: &Vec<Node>, file: &String, name: &String) -> (out:
    Option<usize>)
    ensures
        match resolved(world(looktables, globals), file@, name@) {
            Some(i) => out == Some(i as usize) && i < globals.len(),
            None => out is None,
        },
{
    proof {
        lemma_node_views(globals@);
    }
    match find_table(looktables, file) {
        Some(t) => {
            assert(table_views(looktables@)[t as int] == looktables[t as int]@);
            match lookup(&looktables[t], name) {
                Some(i) => if i < globals.len() {
                    Some(i)
                } else {
                    None
                },
                None => None,
            }
        },
        None => None,
    }
}

/// Evaluates a node to a value; a `return` inside it yields its value.
fn value_of<F: Floats>(
    node: &Node,
    looktables: &Vec<LookTable>,
    globals: &Vec<Node>,
    rt: &mut Runtime,
    floats: &F,
) -> (out: Result<Value, EvalError>)
    ensures
        settled(*old(rt), *final(rt), out is Ok),
        out is Ok ==> final(rt).fuel < old(rt).fuel,
        value_post(value_run(node@, world(looktables, globals), old(rt)@), final(rt)@, out),
    decreases old(rt).fuel, 1int,
{
    proof {
        reveal(value_run);
        reveal(run);
    }
    match eval(node, looktables, globals, rt, floats) {
        Ok(Flow::Normal(v)) => Ok(v),
        Ok(Flow::Return(v)) => Ok(v),
        Err(e) => Err(e),
    }
}

/// Evaluates a node that is to yield a truth value.
fn truth_of<F: Floats>(
    node: &Node,
    looktables: &Vec<LookTable>,
    globals: &Vec<Node>,
    rt: &mut Runtime,
    floats: &F,
) -> (out: Result<bool, EvalError>)
    ensures
        settled(*old(rt), *final(rt), out is Ok),
        out is Ok ==> final(rt).fuel < old(rt).fuel,
        truth_post(truth_run(node@, world(looktables, globals), old(rt)@), final(rt)@, out),
    decreases old(rt).fuel, 2int,
{
    proof {
        reveal(truth_run);
        reveal(value_run);
    }
    match value_of(node, looktables, globals, rt, floats) {
        Ok(Value::Bool(b)) => Ok(b),
        Ok(_) => type_error("A condition must be a truth value."),
        Err(e) => Err(e),
    }
}

/// Evaluates the children of a node, in order.
fn values_of<F: Floats>(
    node: &Node,
    looktables: &Vec<LookTable>,
    globals: &Vec<Node>,
    rt: &mut Runtime,
    floats: &F,
) -> (out: Result<Vec<Value>, EvalError>)
    ensures
        settled(*old(rt), *final(rt), out is Ok),
        values_post(
            values_run(node@.children, 0, world(looktables, globals), old(rt)@, Seq::empty()),
            final(rt)@,
            out,
        ),
    decreases old(rt).fuel, 2int,
{
    let ghost w = world(looktables, globals);
    let ghost ts = node@.children;
    let ghost all = values_run(ts, 0, w, rt@, Seq::empty());
    let mut values: Vec<Value> = Vec::new();
    let mut i: usize = 0;
    proof {
        lemma_node_views(node.children@);
        assert(value_views(values@) =~= Seq::<ValueView>::empty());
    }
    while i < node.children.len()
        invariant
            i <= node.children.len(),
            ts == node@.children,
            ts.len() == node.children.len(),
            w == world(looktables, globals),
            settled(*old(rt), *rt, true),
            all == values_run(ts, 0, w, old(rt)@, Seq::empty()),
            !(all is Unknown) ==> all == values_run(ts, i as int, w, rt@, value_views(values@)),
        decreases node.children.len() - i,
    {
        proof {
            reveal(values_run);
            reveal(value_run);
            lemma_node_views(node.children@);
            assert(ts[i as int] == node.children[i as int]@);
        }
        match value_of(&node.children[i], looktables, globals, rt, floats) {
            Ok(v) => {
                proof {
                    lemma_value_views_push(values@, v);
                }
                values.push(v);
            },
            Err(e) => {
                return Err(e);
            },
        }
        i += 1;
    }
    proof {
        reveal(values_run);
    }
    Ok(values)
}

/// `+`, `-`, `*`, `/` on two doubles.
fn float_arith<F: Floats>(op: &NodeType, a: u64, b: u64, floats: &F) -> (out: u64) {
    match op {
        NodeType::Add => floats.add(a, b),
        NodeType::Sub => floats.sub(a, b),
        NodeType::Mul => floats.mul(a, b),
        _ => floats.div(a, b),
    }
}

/// `+`, `-`, `*`, `/` on two values, and `-` on one.
fn eval_arith<F: Floats>(
    node: &Node,
    looktables: &Vec<LookTable>,
    globals: &Vec<Node>,
    rt: &mut Runtime,
    floats: &F,
) -> (out: Result<Flow, EvalError>)
    requires
        node@.kind is Add || node@.kind is Sub || node@.kind is Mul || node@.kind is Div,
    ensures
        settled(*old(rt), *final(rt), out is Ok),
        flow_post(arith_run(node@, world(looktables, globals), old(rt)@), final(rt)@, out),
    decreases old(rt).fuel, 3int,
{
    proof {
        reveal(arith_run);
        reveal(value_run);
        lemma_node_views(node.children@);
    }
    if node.children.len() == 1 {
        let a = match value_of(&node.children[0], looktables, globals, rt, floats) {
            Ok(v) => v,
            Err(e) => {
                return Err(e);
            },
        };
        return match (&node.nodetype, a) {
            (NodeType::Sub, Value::Int(x)) => match int_negate(x) {
                Ok(r) => Ok(Flow::Normal(Value::Int(r))),
                Err(e) => Err(e),
            },
            (NodeType::Sub, Value::Double(x)) => Ok(Flow::Normal(Value::Double(floats.neg(x)))),
            _ => type_error("'-' takes a number."),
        };
    }
    if node.children.len() != 2 {
        return internal("An arithmetic node takes two operands.");
    }
    let a = match value_of(&node.children[0], looktables, globals, rt, floats) {
        Ok(v) => v,
        Err(e) => {
            return Err(e);
        },
    };
    let b = match value_of(&node.children[1], looktables, globals, rt, floats) {
        Ok(v) => v,
        Err(e) => {
            return Err(e);
        },
    };
    match (a, b) {
        (Value::Int(x), Value::Int(y)) => match int_arith(&node.nodetype, x, y) {
            Ok(r) => Ok(Flow::Normal(Value::Int(r))),
            Err(e) => Err(e),
        },
        (Value::Int(x), Value::Double(y)) => Ok(
            Flow::Normal(Value::Double(float_arith(&node.nodetype, floats.from_int(x), y, floats))),
        ),
        (Value::Double(x), Value::Int(y)) => Ok(
            Flow::Normal(Value::Double(float_arith(&node.nodetype, x, floats.from_int(y), floats))),
        ),
        (Value::Double(x), Value::Double(y)) => Ok(
            Flow::Normal(Value::Double(float_arith(&node.nodetype, x, y, floats))),
        ),
        (Value::Str(x), Value::Str(y)) => match &node.nodetype {
            NodeType::Add => Ok(Flow::Normal(Value::Str(joined(x, y.as_str())))),
            _ => type_error("Strings can only be joined by '+'."),
        },
        (Value::List(x), Value::List(y)) => match &node.nodetype {
            NodeType::Add => {
                let mut all = x;
                let mut rest = y;
                proof {
                    lemma_value_views_add(all@, rest@);
                }
                all.append(&mut rest);
                Ok(Flow::Normal(Value::List(all)))
            },
            _ => type_error("Lists can only be joined by '+'."),
        },
        _ => type_error("An arithmetic operator takes two numbers, two strings or two lists."),
    }
}

/// `==`, `<`, `>`, `<=`, `>=` on two values.
fn eval_compare<F: Floats>(
    node: &Node,
    looktables: &Vec<LookTable>,
    globals: &Vec<Node>,
    rt: &mut Runtime,
    floats: &F,
) -> (out: Result<Flow, EvalError>)
    requires
        node@.kind is Equal || node@.kind is LessThan || node@.kind is GreaterThan
            || node@.kind is LessOrEq || node@.kind is GreaterOrEq,
    ensures
        settled(*old(rt), *final(rt), out is Ok),
        flow_post(compare_run(node@, world(looktables, globals), old(rt)@), final(rt)@, out),
    decreases old(rt).fuel, 3int,
{
    proof {
        reveal(compare_run);
        reveal(value_run);
        lemma_node_views(node.children@);
    }
    if node.children.len() != 2 {
        return internal("A comparison takes two operands.");
    }
    let a = match value_of(&node.children[0], looktables, globals, rt, floats) {
        Ok(v) => v,
        Err(e) => {
            return Err(e);
        },
    };
    let b = match value_of(&node.children[1], looktables, globals, rt, floats) {
        Ok(v) => v,
        Err(e) => {
            return Err(e);
        },
    };
    if let NodeType::Equal = &node.nodetype {
        return Ok(Flow::Normal(Value::Bool(values_equal(&a, &b, floats))));
    }
    // less: a < b; more: b < a
    let (less, more) = match (a, b) {
        (Value::Int(x), Value::Int(y)) => (x < y, y < x),
        (Value::Int(x), Value::Double(y)) => {
            let fx = floats.from_int(x);
            (floats.less(fx, y), floats.less(y, fx))
        },
        (Value::Double(x), Value::Int(y)) => {
            let fy = floats.from_int(y);
            (floats.less(x, fy), floats.less(fy, x))
        },
        (Value::Double(x), Value::Double(y)) => (floats.less(x, y), floats.less(y, x)),
        _ => {
            return type_error("A comparison takes two numbers.");
        },
    };
    match &node.nodetype {
        NodeType::LessThan => Ok(Flow::Normal(Value::Bool(less))),
        NodeType::GreaterThan => Ok(Flow::Normal(Value::Bool(more))),
        NodeType::LessOrEq => Ok(Flow::Normal(Value::Bool(!more))),
        NodeType::GreaterOrEq => Ok(Flow::Normal(Value::Bool(!less))),
        _ => internal("Not a comparison."),
    }
}

/// `&&` and `||`: the right operand is evaluated only where the left one
/// does not decide.
fn eval_logic<F: Floats>(
    node: &Node,
    looktables: &Vec<LookTable>,
    globals: &Vec<Node>,
    rt: &mut Runtime,
    floats: &F,
) -> (out: Result<Flow, EvalError>)
    requires
        node@.kind is LogAnd || node@.kind is LogOr,
    ensures
        settled(*old(rt), *final(rt), out is Ok),
        flow_post(logic_run(node@, world(looktables, globals), old(rt)@), final(rt)@, out),
    decreases old(rt).fuel, 3int,
{
    proof {
        reveal(logic_run);
        reveal(truth_run);
        lemma_node_views(node.children@);
    }
    if node.children.len() != 2 {
        return internal("A logical operator takes two operands.");
    }
    let a = match truth_of(&node.children[0], looktables, globals, rt, floats) {
        Ok(v) => v,
        Err(e) => {
            return Err(e);
        },
    };
    let decided = match &node.nodetype {
        NodeType::LogAnd => !a,
        _ => a,
    };
    if decided {
        return Ok(Flow::Normal(Value::Bool(a)));
    }
    match truth_of(&node.children[1], looktables, globals, rt, floats) {
        Ok(b) => Ok(Flow::Normal(Value::Bool(b))),
        Err(e) => Err(e),
    }
}

/// `&`, `|` and `^` on two integers.
fn eval_bits<F: Floats>(
    node: &Node,
    looktables: &Vec<LookTable>,
    globals: &Vec<Node>,
    rt: &mut Runtime,
    floats: &F,
) -> (out: Result<Flow, EvalError>)
    requires
        node@.kind is BitAnd || node@.kind is BitOr || node@.kind is BitXor,
    ensures
        settled(*old(rt), *final(rt), out is Ok),
        flow_post(bits_run(node@, world(looktables, globals), old(rt)@), final(rt)@, out),
    decreases old(rt).fuel, 3int,
{
    proof {
        reveal(bits_run);
        reveal(value_run);
        lemma_node_views(node.children@);
    }
    if node.children.len() != 2 {
        return internal("A bitwise operator takes two operands.");
    }
    let a = match value_of(&node.children[0], looktables, globals, rt, floats) {
        Ok(v) => v,
        Err(e) => {
            return Err(e);
        },
    };
    let b = match value_of(&node.children[1], looktables, globals, rt, floats) {
        Ok(v) => v,
        Err(e) => {
            return Err(e);
        },
    };
    match (a, b) {
        (Value::Int(x), Value::Int(y)) => match &node.nodetype {
            NodeType::BitAnd => Ok(Flow::Normal(Value::Int(x & y))),
            NodeType::BitOr => Ok(Flow::Normal(Value::Int(x | y))),
            NodeType::BitXor => Ok(Flow::Normal(Value::Int(x ^ y))),
            _ => internal("Not a bitwise operator."),
        },
        _ => type_error("A bitwise operator takes two integers."),
    }
}

/// A string literal: every hole mark in its text is replaced by what the
/// expression of the next hole prints.
fn eval_str<F: Floats>(
    node: &Node,
    raw: &String,
    looktables: &Vec<LookTable>,
    globals: &Vec<Node>,
    rt: &mut Runtime,
    floats: &F,
) -> (out: Result<Flow, EvalError>)
    requires
        node@.kind == AstKind::Str(raw@),
    ensures
        settled(*old(rt), *final(rt), out is Ok),
        flow_post(
            str_from(node@, raw@, 0, 0, Seq::empty(), world(looktables, globals), old(rt)@),
            final(rt)@,
            out,
        ),
    decreases old(rt).fuel, 3int,
{
    let ghost w = world(looktables, globals);
    let ghost t = node@;
    let ghost all = str_from(t, raw@, 0, 0, Seq::empty(), w, rt@);
    let chars = chars_of(raw.as_str());
    let mut text: Vec<char> = Vec::new();
    let mut hole: usize = 0;
    let mut i: usize = 0;
    proof {
        lemma_node_views(node.children@);
    }
    while i < chars.len()
        invariant
            i <= chars.len(),
            hole <= i,
            chars@ == raw@,
            t == node@,
            t.children.len() == node.children.len(),
            w == world(looktables, globals),
            settled(*old(rt), *rt, true),
            all == str_from(t, raw@, 0, 0, Seq::empty(), w, old(rt)@),
            !(all is Unknown) ==> all == str_from(t, raw@, i as int, hole as int, text@, w, rt@),
        decreases chars.len() - i,
    {
        proof {
            reveal(str_from);
            reveal(value_run);
            lemma_node_views(node.children@);
        }
        let c = chars[i];
        if c == '\0' && hole < node.children.len() {
            assert(t.children[hole as int] == node.children[hole as int]@);
            let v = match value_of(&node.children[hole], looktables, globals, rt, floats) {
                Ok(v) => v,
                Err(e) => {
                    return Err(e);
                },
            };
            let part = display(&v, &rt.objsys, floats);
            let mut more = chars_of(part.as_str());
            text.append(&mut more);
            hole += 1;
        } else {
            text.push(c);
        }
        i += 1;
    }
    proof {
        reveal(str_from);
    }
    Ok(Flow::Normal(Value::Str(string_of_chars(&text))))
}

/// The instance that `this` names in the current call, if any.
fn this_id(rt: &Runtime) -> (out: Option<String>)
    ensures
        match this_of(current(rt.store@)) {
            Some(id) => out is Some && out->Some_0@ == id,
            None => out is None,
        },
{
    match rt.store.lookup(&owned("this")) {
        Some(Value::Reference(id)) => Some(id),
        _ => None,
    }
}

/// A name: a variable of the current call, else a field of `this`, else a
/// class; with an owner as its child, a field of the owner.
fn eval_name<F: Floats>(
    node: &Node,
    name: &String,
    looktables: &Vec<LookTable>,
    globals: &Vec<Node>,
    rt: &mut Runtime,
    floats: &F,
) -> (out: Result<Flow, EvalError>)
    requires
        node@.kind == AstKind::Name(name@),
    ensures
        settled(*old(rt), *final(rt), out is Ok),
        flow_post(name_run(node@, name@, world(looktables, globals), old(rt)@), final(rt)@, out),
    decreases old(rt).fuel, 3int,
{
    proof {
        reveal(name_run);
        reveal(value_run);
        lemma_node_views(node.children@);
    }
    if node.children.len() > 0 {
        let owner = match value_of(&node.children[0], looktables, globals, rt, floats) {
            Ok(v) => v,
            Err(e) => {
                return Err(e);
            },
        };
        return match owner {
            Value::Reference(id) => match rt.objsys.get_field(&id, name) {
                Some(v) => Ok(Flow::Normal(v)),
                None => Err(
                    EvalError::Resolution(joined(owned("The instance has no field '"), name.as_str())),
                ),
            },
            _ => type_error("Only an instance has fields."),
        };
    }
    match rt.store.lookup(name) {
        Some(v) => {
            return Ok(Flow::Normal(v));
        },
        None => {},
    }
    match this_id(rt) {
        Some(id) => match rt.objsys.get_field(&id, name) {
            Some(v) => {
                return Ok(Flow::Normal(v));
            },
            None => {},
        },
        None => {},
    }
    match rt.objsys.get_class(name) {
        Some(_) => Ok(Flow::Normal(Value::Class(name.clone()))),
        None => Err(EvalError::Resolution(joined(owned("Unknown name: "), name.as_str()))),
    }
}

/// Gives `name` a new value: a variable of the current call that binds
/// the name; else a field of `this` of that name; else a new variable of
/// the innermost scope.
fn store_name(rt: &mut Runtime, name: &String, value: Value) -> (out: Result<(), EvalError>)
    ensures
        settled(*old(rt), *final(rt), out is Ok),
        final(rt).fuel == old(rt).fuel,
        unit_post(stored(name@, value@, old(rt)@), final(rt)@, out),
{
    let bound = rt.store.lookup(name).is_some();
    if !bound {
        match this_id(rt) {
            Some(id) => {
                if rt.objsys.get_field(&id, name).is_some() {
                    let _ = rt.objsys.set_field(&id, name.clone(), value);
                    return Ok(());
                }
            },
            None => {},
        }
    }
    let ghost before = rt.store@;
    if rt.store.assign(name.clone(), value) {
        proof {
            assert(rt.store@.drop_last() =~= before.drop_last());
            if before.last().len() > 0 {
                lemma_scopes_kept(before.last(), name@, value@);
            }
        }
        Ok(())
    } else {
        internal("An assignment outside any call.")
    }
}

/// `target = value`: a typed target declares a variable in the innermost
/// scope, a name is assigned to.
fn eval_assign<F: Floats>(
    node: &Node,
    looktables: &Vec<LookTable>,
    globals: &Vec<Node>,
    rt: &mut Runtime,
    floats: &F,
) -> (out: Result<Flow, EvalError>)
    ensures
        settled(*old(rt), *final(rt), out is Ok),
        flow_post(assign_run(node@, world(looktables, globals), old(rt)@), final(rt)@, out),
    decreases old(rt).fuel, 3int,
{
    proof {
        reveal(assign_run);
        reveal(value_run);
        lemma_node_views(node.children@);
    }
    if node.children.len() != 2 {
        return internal("An assignment takes a target and a value.");
    }
    let value = match value_of(&node.children[1], looktables, globals, rt, floats) {
        Ok(v) => v,
        Err(e) => {
            return Err(e);
        },
    };
    match &node.children[0].nodetype {
        NodeType::TypedVar(_, name) => {
            let ghost before = rt.store@;
            let ghost bound = value@;
            if rt.store.declare(name.clone(), value) {
                proof {
                    assert(rt.store@.drop_last() =~= before.drop_last());
                    if before.last().len() > 0 {
                        lemma_scopes_kept(before.last(), name@, bound);
                    }
                }
                Ok(Flow::Normal(Value::Null))
            } else {
                internal("A declaration outside any call.")
            }
        },
        NodeType::Name(name) => match store_name(rt, name, value) {
            Ok(_) => Ok(Flow::Normal(Value::Null)),
            Err(e) => Err(e),
        },
        _ => type_error("Only a name can be assigned to."),
    }
}

/// `++` and `--` before or behind a name that holds an integer: `delta`
/// is added to the variable; the result is the value before (`post`) or
/// after.
fn eval_step(node: &Node, delta: i64, post: bool, rt: &mut Runtime) -> (out: Result<
    Flow,
    EvalError,
>)
    requires
        delta == 1 || delta == -1,
    ensures
        settled(*old(rt), *final(rt), out is Ok),
        final(rt).fuel == old(rt).fuel,
        flow_post(step_run(node@, delta as int, post, old(rt)@), final(rt)@, out),
{
    proof {
        lemma_node_views(node.children@);
    }
    if node.children.len() != 1 {
        return internal("'++' and '--' take one operand.");
    }
    match &node.children[0].nodetype {
        NodeType::Name(name) => {
            let old_value = match rt.store.lookup(name) {
                Some(v) => v,
                None => match this_id(rt) {
                    Some(id) => match rt.objsys.get_field(&id, name) {
                        Some(v) => v,
                        None => {
                            return Err(
                                EvalError::Resolution(joined(owned("Unknown name: "), name.as_str())),
                            );
                        },
                    },
                    None => {
                        return Err(
                            EvalError::Resolution(joined(owned("Unknown name: "), name.as_str())),
                        );
                    },
                },
            };
            match old_value {
                Value::Int(x) => {
                    let r = x as i128 + delta as i128;
                    if r < i64::MIN as i128 || r > i64::MAX as i128 {
                        return Err(EvalError::Arithmetic(owned("Integer overflow in '++' or '--'.")));
                    }
                    let y = r as i64;
                    match store_name(rt, name, Value::Int(y)) {
                        Ok(_) => Ok(
                            Flow::Normal(
                                Value::Int(
                                    if post {
                                        x
                                    } else {
                                        y
                                    },
                                ),
                            ),
                        ),
                        Err(e) => Err(e),
                    }
                },
                _ => type_error("'++' and '--' take an integer variable."),
            }
        },
        _ => type_error("'++' and '--' take a name."),
    }
}

/// The statements of a block in turn, in the scope that is current; a
/// `return` ends the block at once.
fn eval_statements<F: Floats>(
    block: &Node,
    looktables: &Vec<LookTable>,
    globals: &Vec<Node>,
    rt: &mut Runtime,
    floats: &F,
) -> (out: Result<Flow, EvalError>)
    ensures
        settled(*old(rt), *final(rt), out is Ok),
        flow_post(
            statements_run(
                block@.children,
                0,
                world(looktables, globals),
                old(rt)@,
                ValueView::Null,
            ),
            final(rt)@,
            out,
        ),
    decreases old(rt).fuel, 3int,
{
    let ghost w = world(looktables, globals);
    let ghost ts = block@.children;
    let ghost all = statements_run(ts, 0, w, rt@, ValueView::Null);
    let mut last = Value::Null;
    let mut i: usize = 0;
    proof {
        lemma_node_views(block.children@);
    }
    while i < block.children.len()
        invariant
            i <= block.children.len(),
            ts == block@.children,
            ts.len() == block.children.len(),
            w == world(looktables, globals),
            settled(*old(rt), *rt, true),
            all == statements_run(ts, 0, w, old(rt)@, ValueView::Null),
            !(all is Unknown) ==> all == statements_run(ts, i as int, w, rt@, last@),
        decreases block.children.len() - i,
    {
        proof {
            reveal(statements_run);
            reveal(run);
            lemma_node_views(block.children@);
            assert(ts[i as int] == block.children[i as int]@);
        }
        match eval(&block.children[i], looktables, globals, rt, floats) {
            Ok(Flow::Normal(v)) => {
                last = v;
            },
            Ok(Flow::Return(v)) => {
                return Ok(Flow::Return(v));
            },
            Err(e) => {
                return Err(e);
            },
        }
        i += 1;
    }
    proof {
        reveal(statements_run);
    }
    Ok(Flow::Normal(last))
}

/// A block in a scope of its own, which is left when the block ends.
fn eval_scoped<F: Floats>(
    block: &Node,
    looktables: &Vec<LookTable>,
    globals: &Vec<Node>,
    rt: &mut Runtime,
    floats: &F,
) -> (out: Result<Flow, EvalError>)
    ensures
        settled(*old(rt), *final(rt), out is Ok),
        flow_post(scoped_run(block@, world(looktables, globals), old(rt)@), final(rt)@, out),
    decreases old(rt).fuel, 4int,
{
    proof {
        reveal(scoped_run);
        reveal(statements_run);
    }
    let ghost s0 = rt.store@;
    if !rt.store.push_lex() {
        return internal("A block outside any call.");
    }
    let ghost s1 = rt.store@;
    let out = eval_statements(block, looktables, globals, rt, floats);
    let ghost s2 = rt.store@;
    let _ = rt.store.pop_lex();
    proof {
        if out is Ok {
            assert(s1.drop_last() =~= s0.drop_last());
            assert(rt.store@.drop_last() =~= s2.drop_last());
        }
    }
    out
}

/// A conditional: the arms in turn, until the condition of one holds or
/// an `else` is reached; the body of that arm in a scope of its own.
fn eval_conditional<F: Floats>(
    node: &Node,
    looktables: &Vec<LookTable>,
    globals: &Vec<Node>,
    rt: &mut Runtime,
    floats: &F,
) -> (out: Result<Flow, EvalError>)
    ensures
        settled(*old(rt), *final(rt), out is Ok),
        flow_post(
            conditional_run(node@, 0, world(looktables, globals), old(rt)@),
            final(rt)@,
            out,
        ),
    decreases old(rt).fuel, 5int,
{
    let ghost w = world(looktables, globals);
    let ghost t = node@;
    let ghost all = conditional_run(t, 0, w, rt@);
    let mut i: usize = 0;
    proof {
        lemma_node_views(node.children@);
    }
    while i < node.children.len()
        invariant
            i <= node.children.len(),
            t == node@,
            t.children.len() == node.children.len(),
            w == world(looktables, globals),
            settled(*old(rt), *rt, true),
            all == conditional_run(t, 0, w, old(rt)@),
            !(all is Unknown) ==> all == conditional_run(t, i as int, w, rt@),
        decreases node.children.len() - i,
    {
        proof {
            reveal(conditional_run);
            reveal(truth_run);
            reveal(scoped_run);
            lemma_node_views(node.children@);
            assert(t.children[i as int] == node.children[i as int]@);
        }
        let arm = &node.children[i];
        proof {
            lemma_node_views(arm.children@);
        }
        match &arm.nodetype {
            NodeType::Else => {
                if arm.children.len() != 1 {
                    return internal("An else arm takes a body.");
                }
                return eval_scoped(&arm.children[0], looktables, globals, rt, floats);
            },
            NodeType::If | NodeType::ElseIf => {
                if arm.children.len() != 2 {
                    return internal("An arm takes a condition and a body.");
                }
                let holds = match truth_of(&arm.children[0], looktables, globals, rt, floats) {
                    Ok(b) => b,
                    Err(e) => {
                        return Err(e);
                    },
                };
                if holds {
                    return eval_scoped(&arm.children[1], looktables, globals, rt, floats);
                }
            },
            _ => {
                return internal("A conditional takes arms.");
            },
        }
        i += 1;
    }
    proof {
        reveal(conditional_run);
    }
    Ok(Flow::Normal(Value::Null))
}

/// `while` and `do ... while`: the body in a scope of its own as long as
/// the condition holds; with `body_first`, once before the condition is
/// looked at.
fn eval_loop<F: Floats>(
    cond: &Node,
    body: &Node,
    body_first: bool,
    looktables: &Vec<LookTable>,
    globals: &Vec<Node>,
    rt: &mut Runtime,
    floats: &F,
) -> (out: Result<Flow, EvalError>)
    ensures
        settled(*old(rt), *final(rt), out is Ok),
        flow_post(
            loop_run(cond@, body@, body_first, world(looktables, globals), old(rt)@),
            final(rt)@,
            out,
        ),
    decreases old(rt).fuel, 5int,
{
    let ghost w = world(looktables, globals);
    let ghost all = loop_run(cond@, body@, body_first, w, rt@);
    let mut skip_test = body_first;
    loop
        invariant
            w == world(looktables, globals),
            settled(*old(rt), *rt, true),
            all == loop_run(cond@, body@, body_first, w, old(rt)@),
            !(all is Unknown) ==> all == loop_run(cond@, body@, skip_test, w, rt@),
        decreases rt.fuel, if skip_test { 1int } else { 0int },
    {
        proof {
            reveal(loop_run);
            reveal(truth_run);
            reveal(scoped_run);
        }
        if !skip_test {
            let holds = match truth_of(cond, looktables, globals, rt, floats) {
                Ok(b) => b,
                Err(e) => {
                    return Err(e);
                },
            };
            if !holds {
                return Ok(Flow::Normal(Value::Null));
            }
        }
        match eval_scoped(body, looktables, globals, rt, floats) {
            Ok(Flow::Normal(_)) => {},
            Ok(Flow::Return(v)) => {
                return Ok(Flow::Return(v));
            },
            Err(e) => {
                return Err(e);
            },
        }
        if skip_test {
            skip_test = false;
        }
    }
}

/// What a `for` does in the scope of its variable: the initial
/// assignment, then, as long as the condition holds, the body and the
/// step.
fn for_rounds<F: Floats>(
    node: &Node,
    looktables: &Vec<LookTable>,
    globals: &Vec<Node>,
    rt: &mut Runtime,
    floats: &F,
) -> (out: Result<Flow, EvalError>)
    requires
        node.children.len() == 4,
    ensures
        settled(*old(rt), *final(rt), out is Ok),
        flow_post(for_inner_run(node@, world(looktables, globals), old(rt)@), final(rt)@, out),
    decreases old(rt).fuel, 5int,
{
    let ghost w = world(looktables, globals);
    let ghost t = node@;
    let ghost whole = for_inner_run(t, w, rt@);
    proof {
        reveal(for_inner_run);
        reveal(run);
        reveal(rounds_run);
        lemma_node_views(node.children@);
    }
    match eval(&node.children[0], looktables, globals, rt, floats) {
        Ok(_) => {},
        Err(e) => {
            return Err(e);
        },
    }
    let ghost all = rounds_run(t, w, rt@);
    loop
        invariant
            node.children.len() == 4,
            t == node@,
            t.children.len() == 4,
            w == world(looktables, globals),
            settled(*old(rt), *rt, true),
            whole == for_inner_run(t, w, old(rt)@),
            !(whole is Unknown) ==> whole == all,
            !(all is Unknown) ==> all == rounds_run(t, w, rt@),
        decreases rt.fuel,
    {
        proof {
            reveal(rounds_run);
            reveal(truth_run);
            reveal(scoped_run);
            reveal(run);
            lemma_node_views(node.children@);
        }
        let holds = match truth_of(&node.children[1], looktables, globals, rt, floats) {
            Ok(b) => b,
            Err(e) => {
                return Err(e);
            },
        };
        if !holds {
            return Ok(Flow::Normal(Value::Null));
        }
        match eval_scoped(&node.children[3], looktables, globals, rt, floats) {
            Ok(Flow::Normal(_)) => {},
            Ok(Flow::Return(v)) => {
                return Ok(Flow::Return(v));
            },
            Err(e) => {
                return Err(e);
            },
        }
        match eval(&node.children[2], looktables, globals, rt, floats) {
            Ok(_) => {},
            Err(e) => {
                return Err(e);
            },
        }
    }
}

/// `for`: a scope of its own for the variable, which is left when the
/// loop ends.
fn eval_for<F: Floats>(
    node: &Node,
    looktables: &Vec<LookTable>,
    globals: &Vec<Node>,
    rt: &mut Runtime,
    floats: &F,
) -> (out: Result<Flow, EvalError>)
    ensures
        settled(*old(rt), *final(rt), out is Ok),
        flow_post(for_run(node@, world(looktables, globals), old(rt)@), final(rt)@, out),
    decreases old(rt).fuel, 6int,
{
    proof {
        reveal(for_run);
        reveal(for_inner_run);
        lemma_node_views(node.children@);
    }
    if node.children.len() != 4 {
        return internal("A for loop takes four parts.");
    }
    let ghost s0 = rt.store@;
    if !rt.store.push_lex() {
        return internal("A loop outside any call.");
    }
    let ghost s1 = rt.store@;
    let out = for_rounds(node, looktables, globals, rt, floats);
    let ghost s2 = rt.store@;
    let _ = rt.store.pop_lex();
    proof {
        if out is Ok {
            assert(s1.drop_last() =~= s0.drop_last());
            assert(rt.store@.drop_last() =~= s2.drop_last());
        }
    }
    out
}

/// The view of a missing receiver, or of the id of one.
pub open spec fn this_view(this: Option<String>) -> Option<Seq<char>> {
    match this {
        Some(id) => Some(id@),
        None => None,
    }
}

/// Binds the arguments to the parameters in the current call, from the
/// last to the first: a name becomes a variable of the innermost scope,
/// `this.name` sets the field `name` of the receiver.
fn bind_params(params: &Node, args: Vec<Value>, this: &Option<String>, rt: &mut Runtime) -> (out:
    Result<(), EvalError>)
    requires
        params.children.len() == args.len(),
        old(rt).store@.len() > 0,
    ensures
        final(rt).fuel == old(rt).fuel,
        final(rt).output == old(rt).output,
        final(rt).ctx == old(rt).ctx,
        final(rt).store@.len() == old(rt).store@.len(),
        final(rt).store@.drop_last() == old(rt).store@.drop_last(),
        unit_post(
            bound_params(
                params@.children,
                value_views(args@),
                params@.children.len() as int,
                this_view(*this),
                old(rt)@,
            ),
            final(rt)@,
            out,
        ),
{
    let ghost all_args = value_views(args@);
    let ghost ps = params@.children;
    let ghost binding = bound_params(ps, all_args, ps.len() as int, this_view(*this), rt@);
    proof {
        lemma_node_views(params.children@);
        lemma_value_views(args@);
    }
    let mut rest = args;
    let mut i = params.children.len();
    while i > 0
        invariant
            i <= params.children.len(),
            rest.len() == i,
            ps == params@.children,
            ps.len() == params.children.len(),
            all_args == value_views(args@),
            all_args.len() == ps.len(),
            value_views(rest@) == all_args.take(i as int),
            rt.fuel == old(rt).fuel,
            rt.output == old(rt).output,
            rt.ctx == old(rt).ctx,
            rt.store@.len() == old(rt).store@.len(),
            rt.store@.len() > 0,
            rt.store@.drop_last() == old(rt).store@.drop_last(),
            binding == bound_params(ps, all_args, ps.len() as int, this_view(*this), old(rt)@),
            binding == bound_params(ps, all_args, i as int, this_view(*this), rt@),
        decreases i,
    {
        proof {
            lemma_node_views(params.children@);
            lemma_value_views(rest@);
            assert(ps[i - 1] == params.children[i - 1]@);
        }
        i -= 1;
        let ghost before_args = rest@;
        let value = match rest.pop() {
            Some(v) => v,
            None => Value::Null,
        };
        proof {
            lemma_value_views(rest@);
            lemma_value_views(before_args);
            assert(before_args.len() == i + 1);
            assert(value == before_args[i as int]);
            assert(value_views(before_args)[i as int] == value@);
            assert(all_args.take(i + 1)[i as int] == all_args[i as int]);
            assert forall|k: int| 0 <= k < i implies #[trigger] value_views(rest@)[k] == all_args[k] by {
                assert(rest@[k] == before_args[k]);
                assert(value_views(before_args)[k] == before_args[k]@);
                assert(all_args.take(i + 1)[k] == all_args[k]);
            }
            assert(value_views(rest@) =~= all_args.take(i as int));
        }
        let ghost before = rt.store@;
        match &params.children[i].nodetype {
            NodeType::Name(name) => {
                let _ = rt.store.declare(name.clone(), value);
            },
            NodeType::ThisFieldInit(name) => match this {
                Some(id) => {
                    let _ = rt.objsys.set_field(id, name.clone(), value);
                },
                None => {
                    return type_error("Only a constructor takes 'this.' parameters.");
                },
            },
            _ => {
                return internal("A parameter list takes names.");
            },
        }
        proof {
            assert(rt.store@.drop_last() =~= before.drop_last());
        }
    }
    Ok(())
}

/// Runs a function or a method: a new call with the arguments bound to
/// the parameters (and `this` to the receiver), the body in it, and the
/// value that the body returns.
fn invoke<F: Floats>(
    params: &Node,
    body: &Node,
    file: &String,
    args: Vec<Value>,
    this: Option<String>,
    looktables: &Vec<LookTable>,
    globals: &Vec<Node>,
    rt: &mut Runtime,
    floats: &F,
) -> (out: Result<Value, EvalError>)
    ensures
        settled(*old(rt), *final(rt), out is Ok),
        value_post(
            invoke_run(
                params@,
                body@,
                file@,
                value_views(args@),
                this_view(this),
                world(looktables, globals),
                old(rt)@,
            ),
            final(rt)@,
            out,
        ),
    decreases old(rt).fuel, 5int,
{
    proof {
        reveal(invoke_run);
        reveal(statements_run);
        lemma_node_views(params.children@);
        lemma_value_views(args@);
    }
    if params.children.len() != args.len() {
        return type_error("A call must give one argument for every parameter.");
    }
    let ghost s0 = rt.store@;
    rt.store.push_call();
    match bind_params(params, args, &this, rt) {
        Ok(_) => {},
        Err(e) => {
            rt.store.pop_call();
            return Err(e);
        },
    }
    match &this {
        Some(id) => {
            let ghost before = rt.store@;
            let _ = rt.store.declare(owned("this"), Value::Reference(id.clone()));
            proof {
                assert(rt.store@.drop_last() =~= before.drop_last());
            }
        },
        None => {},
    }
    let caller_file = rt.ctx.filepath.clone();
    rt.ctx.filepath = file.clone();
    let ghost s1 = rt.store@;
    let out = match &body.nodetype {
        NodeType::Block => eval_statements(body, looktables, globals, rt, floats),
        NodeType::Null => Ok(Flow::Normal(Value::Null)),
        _ => internal("A body must be a block."),
    };
    rt.ctx.filepath = caller_file;
    let ghost s2 = rt.store@;
    rt.store.pop_call();
    proof {
        if out is Ok {
            assert(s2.drop_last() == s1.drop_last());
            assert(rt.store@ =~= s0);
        }
    }
    match out {
        Ok(Flow::Normal(_)) => Ok(Value::Null),
        Ok(Flow::Return(v)) => Ok(v),
        Err(e) => Err(e),
    }
}

/// The first values of the fields of the instance of the given id: each
/// is evaluated in a call of its own and written into the instance.
fn init_fields<F: Floats>(
    fields: &Vec<Field>,
    id: &String,
    looktables: &Vec<LookTable>,
    globals: &Vec<Node>,
    rt: &mut Runtime,
    floats: &F,
) -> (out: Result<(), EvalError>)
    ensures
        settled(*old(rt), *final(rt), out is Ok),
        unit_post(
            fields_run(field_views(fields@), 0, id@, world(looktables, globals), old(rt)@),
            final(rt)@,
            out,
        ),
    decreases old(rt).fuel, 3int,
{
    let ghost w = world(looktables, globals);
    let ghost fs = field_views(fields@);
    let ghost all = fields_run(fs, 0, id@, w, rt@);
    let mut i: usize = 0;
    while i < fields.len()
        invariant
            i <= fields.len(),
            fs == field_views(fields@),
            fs.len() == fields.len(),
            w == world(looktables, globals),
            settled(*old(rt), *rt, true),
            all == fields_run(fs, 0, id@, w, old(rt)@),
            !(all is Unknown) ==> all == fields_run(fs, i as int, id@, w, rt@),
        decreases fields.len() - i,
    {
        proof {
            reveal(fields_run);
            reveal(value_run);
            assert(fs[i as int] == fields[i as int]@);
        }
        let ghost s0 = rt.store@;
        rt.store.push_call();
        let first = value_of(&fields[i].default, looktables, globals, rt, floats);
        rt.store.pop_call();
        proof {
            if first is Ok {
                assert(rt.store@ =~= s0);
            }
        }
        match first {
            Ok(v) => {
                let _ = rt.objsys.set_field(id, fields[i].name.clone(), v);
            },
            Err(e) => {
                return Err(e);
            },
        }
        i += 1;
    }
    proof {
        reveal(fields_run);
    }
    Ok(())
}

/// Creates an instance of the class `class_name` under the given id: the
/// instance is registered, its fields get their first values, and the
/// constructor `ctor` runs with `this` bound to it. The result refers to
/// the instance.
pub fn construct_with<F: Floats>(
    id: String,
    ctor: &Node,
    class_name: &String,
    file: &String,
    args: Vec<Value>,
    looktables: &Vec<LookTable>,
    globals: &Vec<Node>,
    rt: &mut Runtime,
    floats: &F,
) -> (out: Result<Value, EvalError>)
    ensures
        settled(*old(rt), *final(rt), out is Ok),
        value_post(
            construct_run(
                id@,
                ctor@,
                class_name@,
                file@,
                value_views(args@),
                world(looktables, globals),
                old(rt)@,
            ),
            final(rt)@,
            out,
        ),
    decreases old(rt).fuel, 6int,
{
    proof {
        reveal(construct_run);
        reveal(fields_run);
        reveal(invoke_run);
        lemma_node_views(ctor.children@);
    }
    if ctor.children.len() != 2 {
        return internal("A constructor takes parameters and a body.");
    }
    let fields: Vec<Field> = match rt.objsys.get_class(class_name) {
        Some(class) => {
            let mut copy: Vec<Field> = Vec::new();
            let mut i: usize = 0;
            while i < class.fields.len()
                invariant
                    i <= class.fields.len(),
                    copy.len() == i,
                    forall|k: int| 0 <= k < i ==> copy[k]@ == class.fields[k]@,
                decreases class.fields.len() - i,
            {
                copy.push(class.fields[i].clone());
                i += 1;
            }
            assert(field_views(copy@) =~= class@.fields);
            copy
        },
        None => {
            return Err(EvalError::Resolution(joined(owned("Unknown class: "), class_name.as_str())));
        },
    };
    if !rt.objsys.add_instance(class_name.clone(), id.clone()) {
        return internal("The id of a new instance is in use.");
    }
    match init_fields(&fields, &id, looktables, globals, rt, floats) {
        Ok(_) => {},
        Err(e) => {
            return Err(e);
        },
    }
    match invoke(
        &ctor.children[0],
        &ctor.children[1],
        file,
        args,
        Some(id.clone()),
        looktables,
        globals,
        rt,
        floats,
    ) {
        Ok(_) => Ok(Value::Reference(id)),
        Err(e) => Err(e),
    }
}

/// Creates an instance of the class `class_name` under the id that waits
/// last among the ids of the runtime. A class that is not registered is an
/// error, and so is a runtime in which no id waits.
fn construct<F: Floats>(
    ctor: &Node,
    class_name: &String,
    file: &String,
    args: Vec<Value>,
    looktables: &Vec<LookTable>,
    globals: &Vec<Node>,
    rt: &mut Runtime,
    floats: &F,
) -> (out: Result<Value, EvalError>)
    requires
        ctor.children.len() == 2,
    ensures
        settled(*old(rt), *final(rt), out is Ok),
        value_post(
            if old(rt)@.objsys.class_index(class_name@, old(rt)@.objsys.classes.len() as int) is None {
                Run::Failed(Failure::Resolution, old(rt)@.output)
            } else if old(rt)@.ids.len() == 0 {
                Run::Failed(Failure::OutOfIds, old(rt)@.output)
            } else {
                construct_run(
                    old(rt)@.ids.last(),
                    ctor@,
                    class_name@,
                    file@,
                    value_views(args@),
                    world(looktables, globals),
                    Machine { ids: old(rt)@.ids.drop_last(), ..old(rt)@ },
                )
            },
            final(rt)@,
            out,
        ),
    decreases old(rt).fuel, 7int,
{
    proof {
        reveal(construct_run);
        lemma_node_views(ctor.children@);
    }
    if rt.objsys.get_class(class_name).is_none() {
        return Err(EvalError::Resolution(joined(owned("Unknown class: "), class_name.as_str())));
    }
    let ghost waiting = rt@.ids;
    match rt.ids.pop() {
        Some(id) => {
            proof {
                assert(string_views(rt.ids@) =~= waiting.drop_last());
                assert(id@ == waiting.last());
                assert(rt@ == Machine { ids: waiting.drop_last(), ..old(rt)@ });
            }
            construct_with(id, ctor, class_name, file, args, looktables, globals, rt, floats)
        },
        None => {
            proof {
                assert(string_views(rt.ids@) =~= waiting);
            }
            Err(EvalError::OutOfIds)
        },
    }
}

/// A call by name: `print`, a function declared in the current call, or
/// what the name resolves to from the current file, a function or the
/// constructor of a class.
#[verifier::rlimit(50)]
fn eval_call<F: Floats>(
    node: &Node,
    name: &String,
    looktables: &Vec<LookTable>,
    globals: &Vec<Node>,
    rt: &mut Runtime,
    floats: &F,
) -> (out: Result<Flow, EvalError>)
    ensures
        settled(*old(rt), *final(rt), out is Ok),
        flow_post(call_run(node@, name@, world(looktables, globals), old(rt)@), final(rt)@, out),
    decreases old(rt).fuel, 8int,
{
    proof {
        reveal(call_run);
        reveal(values_run);
        reveal(invoke_run);
        reveal(construct_run);
        lemma_node_views(node.children@);
        lemma_node_views(globals@);
    }
    if node.children.len() != 1 {
        return internal("A call takes an argument list.");
    }
    let args = match values_of(&node.children[0], looktables, globals, rt, floats) {
        Ok(v) => v,
        Err(e) => {
            return Err(e);
        },
    };
    if *name == owned("print") {
        let line = display_items(&args, " ", &rt.objsys, floats);
        let ghost before = string_views(rt.output@);
        proof {
            assert(string_views(rt.output@.push(line)) =~= before.push(line@));
        }
        rt.output.push(line);
        return Ok(Flow::Normal(Value::Null));
    }
    match rt.store.lookup(name) {
        Some(Value::Function(def)) => {
            proof {
                lemma_node_views(def.children@);
            }
            if def.children.len() != 2 {
                return internal("A function takes parameters and a body.");
            }
            let file = match &def.nodetype {
                NodeType::FunDef(_, file) => file.clone(),
                _ => rt.ctx.filepath.clone(),
            };
            return match invoke(
                &def.children[0],
                &def.children[1],
                &file,
                args,
                None,
                looktables,
                globals,
                rt,
                floats,
            ) {
                Ok(v) => Ok(Flow::Normal(v)),
                Err(e) => Err(e),
            };
        },
        _ => {},
    }
    let index = match resolve_call(looktables, globals, &rt.ctx.filepath, name) {
        Some(i) => i,
        None => {
            return Err(EvalError::Resolution(joined(owned("Unknown function: "), name.as_str())));
        },
    };
    let decl = &globals[index];
    proof {
        lemma_node_views(decl.children@);
    }
    if decl.children.len() != 2 {
        return internal("A declaration takes parameters and a body.");
    }
    match &decl.nodetype {
        NodeType::FunDef(_, file) => match invoke(
            &decl.children[0],
            &decl.children[1],
            file,
            args,
            None,
            looktables,
            globals,
            rt,
            floats,
        ) {
            Ok(v) => Ok(Flow::Normal(v)),
            Err(e) => Err(e),
        },
        NodeType::Constructor(class_name, file) => match construct(
            decl,
            class_name,
            file,
            args,
            looktables,
            globals,
            rt,
            floats,
        ) {
            Ok(v) => Ok(Flow::Normal(v)),
            Err(e) => Err(e),
        },
        _ => internal("A name resolves to a function or a constructor."),
    }
}

/// The parameter list of a method, as a node.
fn params_node(method: &Function) -> (out: Node)
    ensures
        out@ == params_tree(method@),
{
    let mut params = Node::new(NodeType::ParamList);
    let mut i: usize = 0;
    while i < method.params.len()
        invariant
            i <= method.params.len(),
            params@.kind == AstKind::ParamList,
            params@.children.len() == i,
            forall|k: int|
                0 <= k < i ==> #[trigger] params@.children[k] == Ast::leaf(
                    AstKind::Name(method.params[k]@.name),
                ),
        decreases method.params.len() - i,
    {
        params.add_child(Node::new(NodeType::Name(method.params[i].name.clone())));
        i += 1;
    }
    assert(params@.children =~= params_tree(method@).children);
    params
}

/// A method call: the owner must be an instance; the method of its class
/// runs with `this` bound to it.
fn eval_method<F: Floats>(
    node: &Node,
    name: &String,
    owner: &Node,
    looktables: &Vec<LookTable>,
    globals: &Vec<Node>,
    rt: &mut Runtime,
    floats: &F,
) -> (out: Result<Flow, EvalError>)
    ensures
        settled(*old(rt), *final(rt), out is Ok),
        flow_post(
            method_run(node@, name@, owner@, world(looktables, globals), old(rt)@),
            final(rt)@,
            out,
        ),
    decreases old(rt).fuel, 7int,
{
    proof {
        reveal(method_run);
        reveal(value_run);
        reveal(values_run);
        reveal(invoke_run);
        lemma_node_views(node.children@);
    }
    if node.children.len() != 1 {
        return internal("A call takes an argument list.");
    }
    let receiver = match value_of(owner, looktables, globals, rt, floats) {
        Ok(v) => v,
        Err(e) => {
            return Err(e);
        },
    };
    let id = match receiver {
        Value::Reference(id) => id,
        _ => {
            return type_error("Only an instance has methods.");
        },
    };
    let args = match values_of(&node.children[0], looktables, globals, rt, floats) {
        Ok(v) => v,
        Err(e) => {
            return Err(e);
        },
    };
    let class_name = match rt.objsys.class_of(&id) {
        Some(n) => n,
        None => {
            return Err(EvalError::Resolution(owned("The instance does not exist.")));
        },
    };
    let method: Function = match rt.objsys.get_class(&class_name) {
        Some(class) => match class.get_method(name) {
            Some(m) => m.clone(),
            None => {
                return Err(EvalError::Resolution(joined(owned("Unknown method: "), name.as_str())));
            },
        },
        None => {
            return Err(EvalError::Resolution(joined(owned("Unknown class: "), class_name.as_str())));
        },
    };
    let params = params_node(&method);
    match invoke(
        &params,
        &method.body,
        &method.file,
        args,
        Some(id),
        looktables,
        globals,
        rt,
        floats,
    ) {
        Ok(v) => Ok(Flow::Normal(v)),
        Err(e) => Err(e),
    }
}

/// What an expression asks for, by its kind.
fn eval_expression<F: Floats>(
    node: &Node,
    looktables: &Vec<LookTable>,
    globals: &Vec<Node>,
    rt: &mut Runtime,
    floats: &F,
) -> (out: Result<Flow, EvalError>)
    ensures
        settled(*old(rt), *final(rt), out is Ok),
        flow_post(expression_run(node@, world(looktables, globals), old(rt)@), final(rt)@, out),
    decreases old(rt).fuel, 9int,
{
    proof {
        reveal(expression_run);
        reveal(str_from);
        reveal(name_run);
        reveal(arith_run);
        reveal(compare_run);
        reveal(logic_run);
        reveal(bits_run);
        reveal(truth_run);
        reveal(call_run);
        reveal(method_run);
        reveal(values_run);
        lemma_node_views(node.children@);
    }
    match &node.nodetype {
        NodeType::Int(v) => Ok(Flow::Normal(Value::Int(*v))),
        NodeType::Double(text) => Ok(Flow::Normal(Value::Double(floats.parse(text.as_str())))),
        NodeType::Bool(b) => Ok(Flow::Normal(Value::Bool(*b))),
        NodeType::Null => Ok(Flow::Normal(Value::Null)),
        NodeType::Str(raw) => eval_str(node, raw, looktables, globals, rt, floats),
        NodeType::Name(name) => eval_name(node, name, looktables, globals, rt, floats),
        NodeType::Add | NodeType::Sub | NodeType::Mul | NodeType::Div => eval_arith(
            node,
            looktables,
            globals,
            rt,
            floats,
        ),
        NodeType::Equal | NodeType::LessThan | NodeType::GreaterThan | NodeType::LessOrEq
        | NodeType::GreaterOrEq => eval_compare(node, looktables, globals, rt, floats),
        NodeType::LogAnd | NodeType::LogOr => eval_logic(node, looktables, globals, rt, floats),
        NodeType::BitAnd | NodeType::BitOr | NodeType::BitXor => eval_bits(
            node,
            looktables,
            globals,
            rt,
            floats,
        ),
        NodeType::Not => {
            if node.children.len() != 1 {
                return internal("'!' takes one operand.");
            }
            match truth_of(&node.children[0], looktables, globals, rt, floats) {
                Ok(b) => Ok(Flow::Normal(Value::Bool(!b))),
                Err(e) => Err(e),
            }
        },
        NodeType::PreIncrement => eval_step(node, 1, false, rt),
        NodeType::PreDecrement => eval_step(node, -1, false, rt),
        NodeType::PostIncrement => eval_step(node, 1, true, rt),
        NodeType::PostDecrement => eval_step(node, -1, true, rt),
        NodeType::FunCall(name) => eval_call(node, name, looktables, globals, rt, floats),
        NodeType::MethodCall(name, owner, _) => eval_method(
            node,
            name,
            owner,
            looktables,
            globals,
            rt,
            floats,
        ),
        NodeType::List => match values_of(node, looktables, globals, rt, floats) {
            Ok(items) => Ok(Flow::Normal(Value::List(items))),
            Err(e) => Err(e),
        },
        _ => internal("The node stands where no value is asked for."),
    }
}

/// What a statement asks for, by its kind.
fn eval_statement<F: Floats>(
    node: &Node,
    looktables: &Vec<LookTable>,
    globals: &Vec<Node>,
    rt: &mut Runtime,
    floats: &F,
) -> (out: Result<Flow, EvalError>)
    ensures
        settled(*old(rt), *final(rt), out is Ok),
        flow_post(statement_run(node@, world(looktables, globals), old(rt)@), final(rt)@, out),
    decreases old(rt).fuel, 8int,
{
    proof {
        reveal(statement_run);
        reveal(scoped_run);
        reveal(assign_run);
        reveal(conditional_run);
        reveal(loop_run);
        reveal(for_run);
        reveal(value_run);
        lemma_node_views(node.children@);
    }
    match &node.nodetype {
        NodeType::FunDef(name, _) => {
            let ghost before = rt.store@;
            let def = Value::Function(node.clone());
            let ghost bound = def@;
            if rt.store.declare(name.clone(), def) {
                proof {
                    assert(rt.store@.drop_last() =~= before.drop_last());
                    if before.last().len() > 0 {
                        lemma_scopes_kept(before.last(), name@, bound);
                    }
                }
                Ok(Flow::Normal(Value::Null))
            } else {
                internal("A declaration outside any call.")
            }
        },
        NodeType::Block => eval_scoped(node, looktables, globals, rt, floats),
        NodeType::Assign => eval_assign(node, looktables, globals, rt, floats),
        NodeType::Conditional => eval_conditional(node, looktables, globals, rt, floats),
        NodeType::While => {
            if node.children.len() != 2 {
                return internal("A while loop takes a condition and a body.");
            }
            eval_loop(&node.children[0], &node.children[1], false, looktables, globals, rt, floats)
        },
        NodeType::DoWhile => {
            if node.children.len() != 2 {
                return internal("A do loop takes a body and a condition.");
            }
            eval_loop(&node.children[1], &node.children[0], true, looktables, globals, rt, floats)
        },
        NodeType::For => eval_for(node, looktables, globals, rt, floats),
        NodeType::Return => {
            if node.children.len() != 1 {
                return internal("A return takes a value.");
            }
            match value_of(&node.children[0], looktables, globals, rt, floats) {
                Ok(v) => Ok(Flow::Return(v)),
                Err(e) => Err(e),
            }
        },
        _ => internal("The node is no statement."),
    }
}

/// Evaluates a node in the current call of `rt`, resolving calls by the
/// lookup table of the file in `rt.ctx`.
pub fn eval<F: Floats>(
    node: &Node,
    looktables: &Vec<LookTable>,
    globals: &Vec<Node>,
    rt: &mut Runtime,
    floats: &F,
) -> (out: Result<Flow, EvalError>)
    ensures
        settled(*old(rt), *final(rt), out is Ok),
        out is Ok ==> final(rt).fuel < old(rt).fuel,
        flow_post(run(node@, world(looktables, globals), old(rt)@), final(rt)@, out),
    decreases old(rt).fuel, 0int,
{
    proof {
        reveal(run);
        reveal(expression_run);
        reveal(statement_run);
    }
    if rt.fuel == 0 {
        return Err(EvalError::Exhausted);
    }
    rt.fuel = rt.fuel - 1;
    match &node.nodetype {
        NodeType::FunDef(_, _) | NodeType::Block | NodeType::Assign | NodeType::Conditional
        | NodeType::While | NodeType::DoWhile | NodeType::For | NodeType::Return => eval_statement(
            node,
            looktables,
            globals,
            rt,
            floats,
        ),
        _ => eval_expression(node, looktables, globals, rt, floats),
    }
}

/// What running `main` of the file `root` yields: without a `main` that
/// the file can call, a failure to resolve; with one, what its body
/// yields in a call of its own, with calls resolved first from `root`.
pub open spec fn main_run(root: Seq<char>, w: World, m: Machine) -> Run<ValueView> {
    match resolved(w, root, "main"@) {
        None => Run::Failed(Failure::Resolution, m.output),
        Some(i) => match w.globals[i].kind {
            AstKind::FunDef(_, file) => if w.globals[i].children.len() != 2 {
                Run::Failed(Failure::Internal, m.output)
            } else {
                match invoke_run(
                    w.globals[i].children[0],
                    w.globals[i].children[1],
                    file,
                    Seq::empty(),
                    None,
                    w,
                    Machine { file: root, ..m },
                ) {
                    Run::Done(v, after) => Run::Done(v, after),
                    other => other,
                }
            },
            _ => Run::Failed(Failure::Type, m.output),
        },
    }
}

/// Runs the function `main` of the file `root`: in a call of its own,
/// with calls resolved from `root`.
pub fn run_main<F: Floats>(
    root: &String,
    looktables: &Vec<LookTable>,
    globals: &Vec<Node>,
    rt: &mut Runtime,
    floats: &F,
) -> (out: Result<(), EvalError>)
    ensures
        settled(*old(rt), *final(rt), out is Ok),
        match main_run(root@, world(looktables, globals), old(rt)@) {
            Run::Done(_, m) => out is Ok && final(rt)@ == m,
            Run::Failed(k, lines) => out is Err && kind_of(out->Err_0) == k && final(rt)@.output
                == lines,
            Run::Unknown => true,
        },
{
    proof {
        lemma_node_views(globals@);
    }
    let index = match resolve_call(looktables, globals, root, &owned("main")) {
        Some(i) => i,
        None => {
            return Err(EvalError::Resolution(owned("No 'main' method found.")));
        },
    };
    let decl = &globals[index];
    proof {
        lemma_node_views(decl.children@);
    }
    match &decl.nodetype {
        NodeType::FunDef(_, file) => {
            if decl.children.len() != 2 {
                return internal("A function takes parameters and a body.");
            }
            rt.ctx.filepath = root.clone();
            let args: Vec<Value> = Vec::new();
            proof {
                assert(value_views(args@) =~= Seq::<ValueView>::empty());
            }
            match invoke(
                &decl.children[0],
                &decl.children[1],
                file,
                args,
                None,
                looktables,
                globals,
                rt,
                floats,
            ) {
                Ok(_) => Ok(()),
                Err(e) => Err(e),
            }
        },
        _ => Err(EvalError::Type(owned("'main' must be a function."))),
    }
}

/// What a run of a program leaves: the lines it printed, and the error
/// that stopped it, if one did.
#[derive(Debug)]
pub struct Outcome {
    pub output: Vec<String>,
    pub error: Option<EvalError>,
}

/// The file declares `name` at its top level.
pub open spec fn declares(sources: Seq<SourceView>, path: Seq<char>, name: Seq<char>) -> bool {
    file_program(sources, path) matches Some(Ok(prog)) && exists|i: int|
        0 <= i < prog.globals.len() && decl_name(#[trigger] prog.globals[i]) == name
}

/// The file can call `name`: it declares the name itself, or one of the
/// files that it imports does.
pub open spec fn can_call(sources: Seq<SourceView>, path: Seq<char>, name: Seq<char>) -> bool {
    declares(sources, path, name) || exists|k: int|
        0 <= k < imports_of(sources, path).len() && declares(
            sources,
            #[trigger] imports_of(sources, path)[k],
            name,
        )
}

/// A range of a sound memo entry resolves a name exactly where the file
/// of the entry declares it.
proof fn lemma_range_declares(
    sources: Seq<SourceView>,
    globals: Seq<Ast>,
    m: MemoView,
    name: Seq<char>,
)
    requires
        memo_ok(sources, globals, m),
    ensures
        resolve(entries_of(globals, m.start, m.end), name, m.end - m.start) is Some <==> declares(
            sources,
            m.path,
            name,
        ),
{
    law_range_resolves_to_last(globals, m.start, m.end, name, m.end - m.start);
    let prog = file_program(sources, m.path)->0->Ok_0;
    let part = globals.subrange(m.start, m.end);
    assert(part == prog.globals);
    match resolve(entries_of(globals, m.start, m.end), name, m.end - m.start) {
        Some(i) => {
            assert(part[i - m.start] == globals[i]);
            assert(decl_name(prog.globals[i - m.start]) == name);
        },
        None => {
            if declares(sources, m.path, name) {
                let i = choose|i: int|
                    0 <= i < prog.globals.len() && decl_name(#[trigger] prog.globals[i]) == name;
                assert(part[i] == globals[m.start + i]);
                assert(decl_name(globals[m.start + i]) == name);
            }
        },
    }
}

/// The entries of the first `n` imports resolve a name exactly where one
/// of those imports declares it.
proof fn lemma_imports_declare(
    sources: Seq<SourceView>,
    globals: Seq<Ast>,
    memo: Seq<MemoView>,
    imports: Seq<Seq<char>>,
    n: int,
    name: Seq<char>,
)
    requires
        0 <= n <= imports.len(),
        forall|i: int| 0 <= i < memo.len() ==> memo_ok(sources, globals, #[trigger] memo[i]),
        forall|i: int| 0 <= i < n ==> memo_at(memo, #[trigger] imports[i], 0) is Some,
    ensures
        resolve(
            import_entries(globals, memo, imports, n),
            name,
            import_entries(globals, memo, imports, n).len() as int,
        ) is Some <==> exists|k: int| 0 <= k < n && declares(sources, #[trigger] imports[k], name),
    decreases n,
{
    if n > 0 {
        lemma_imports_declare(sources, globals, memo, imports, n - 1, name);
        let p = imports[n - 1];
        assert(memo_at(memo, p, 0) is Some);
        crate::linker::lemma_memo_at_stable(memo, memo, p, 0);
        let i = memo_at(memo, p, 0)->0;
        let m = memo[i];
        assert(memo_ok(sources, globals, m));
        lemma_range_declares(sources, globals, m, name);
        let early = import_entries(globals, memo, imports, n - 1);
        let late = entries_of(globals, m.start, m.end);
        law_later_merge_decides(early, late, name);
        assert(m.path == p);
        if exists|k: int| 0 <= k < n && declares(sources, #[trigger] imports[k], name) {
            let k = choose|k: int| 0 <= k < n && declares(sources, #[trigger] imports[k], name);
            if k < n - 1 {
                assert(declares(sources, imports[k], name));
            }
        }
    }
}

/// The state in which a linked program starts: no call on the stack, the
/// classes that linking has registered and no instance, no output, the
/// given budget of steps, and the ids that were drawn ahead.
pub open spec fn initial(
    classes: Seq<ClassView>,
    root: Seq<char>,
    fuel: u64,
    ids: Seq<Seq<char>>,
) -> Machine {
    Machine {
        store: Seq::empty(),
        objsys: ObjSysView { classes, instances: Seq::empty() },
        file: root,
        output: Seq::empty(),
        fuel: fuel as nat,
        ids,
    }
}

/// The outcome is that of the run: where the run is done, there is no
/// error and the output is that of the run; where it fails, the error is
/// of that kind and the output is what was printed until then.
pub open spec fn outcome_post(meant: Run<ValueView>, o: Outcome) -> bool {
    match meant {
        Run::Done(_, m) => o.error is None && string_views(o.output@) == m.output,
        Run::Failed(k, lines) => o.error is Some && kind_of(o.error->Some_0) == k && string_views(
            o.output@,
        ) == lines,
        Run::Unknown => true,
    }
}

/// What a run of the linked program means: `main` of the file `root` runs
/// in the world that the link holds, from the state in which a program
/// starts.
pub open spec fn program_run(root: Seq<char>, s: Link, fuel: u64, ids: Seq<Seq<char>>) -> Run<
    ValueView,
> {
    main_run(
        root,
        World { tables: s.tables, globals: s.globals },
        initial(s.classes, root, fuel, ids),
    )
}

/// What a program is owed: where the visit of its root file is done, a run
/// of the linked program with ids that were drawn for its instances, and
/// that were enough unless as many were drawn as can be held; where the
/// visit ends at a missing or a rejected file, that error.
pub open spec fn evaluate_post(
    meant: Visit,
    root: Seq<char>,
    fuel: u64,
    out: Result<Outcome, LinkError>,
) -> bool {
    match meant {
        Visit::Done(s) => out is Ok && exists|ids: Seq<Seq<char>>|
            {
                &&& outcome_post(#[trigger] program_run(root, s, fuel, ids), out->Ok_0)
                &&& (out->Ok_0.error matches Some(EvalError::OutOfIds) ==> ids.len() == usize::MAX)
            },
        Visit::Missing(p) => out matches Err(LinkError::Missing(q)) && q@ == p,
        Visit::Rejected(p, f) => out matches Err(LinkError::Rejected(q, e)) && q@ == p && e@ == f,
    }
}

/// Draws `n` ids for instances to come.
pub fn draw_ids(n: usize) -> (out: Vec<String>)
    ensures
        out.len() == n,
{
    let mut ids: Vec<String> = Vec::new();
    while ids.len() < n
        invariant
            ids.len() <= n,
        decreases n - ids.len(),
    {
        ids.push(fresh_id());
    }
    ids
}

/// Runs `main` of the file `root` from the start, with ids drawn ahead:
/// with sixteen at first, and again with twice as many as long as a run
/// wants more than it has.
fn run_with_ids<F: Floats>(
    root: &String,
    looktables: &Vec<LookTable>,
    globals: &Vec<Node>,
    objsys: &ObjSys,
    debug: bool,
    fuel: u64,
    floats: &F,
) -> (o: Outcome)
    ensures
        exists|ids: Seq<Seq<char>>|
            {
                &&& outcome_post(
                    main_run(
                        root@,
                        world(looktables, globals),
                        #[trigger] initial(objsys@.classes, root@, fuel, ids),
                    ),
                    o,
                )
                &&& (o.error matches Some(EvalError::OutOfIds) ==> ids.len() == usize::MAX)
            },
{
    let mut ahead: usize = 16;
    loop
        invariant
            ahead > 0,
        decreases usize::MAX - ahead,
    {
        let ids = draw_ids(ahead);
        let ghost drawn = string_views(ids@);
        let mut rt = Runtime {
            store: Stack::new(),
            objsys: objsys.without_instances(),
            ctx: Ctx::new(root.clone(), debug),
            output: Vec::new(),
            fuel,
            ids,
        };
        proof {
            assert(string_views(rt.output@) =~= Seq::<Seq<char>>::empty());
            assert(rt.store@ =~= Seq::<Seq<Frame>>::empty());
            assert(rt@ == initial(objsys@.classes, root@, fuel, drawn));
        }
        match run_main(root, looktables, globals, &mut rt, floats) {
            Ok(_) => {
                return Outcome { output: rt.output, error: None };
            },
            Err(EvalError::OutOfIds) => {
                if ahead == usize::MAX {
                    return Outcome { output: rt.output, error: Some(EvalError::OutOfIds) };
                }
                ahead = if ahead > usize::MAX / 2 {
                    usize::MAX
                } else {
                    ahead * 2
                };
            },
            Err(e) => {
                return Outcome { output: rt.output, error: Some(e) };
            },
        }
    }
}

/// Runs a program: links the file `filename` with what it imports, and
/// runs its `main`.
///
/// The result is that of the visit of `filename` from nothing: linking
/// fails exactly where that visit ends at a file that `sources` lacks or
/// that is rejected, with that file; else the outcome is what running
/// `main` in the linked program means. The ids of the instances are drawn
/// before the run, and the outcome is that of the run with those ids;
/// where a run wants more ids than were drawn, it is made again with twice
/// as many. Where the file can call no `main`, the run ends at once with
/// an error and without output.
pub fn evaluate<F: Floats>(
    filename: String,
    sources: &Vec<SourceFile>,
    debug: bool,
    fuel: u64,
    floats: &F,
) -> (out: Result<Outcome, LinkError>)
    ensures
        evaluate_post(
            visit(source_views(sources@), filename@, nothing_linked()),
            filename@,
            fuel,
            out,
        ),
        (forall|p: Seq<char>| #[trigger]
            reaches(source_views(sources@), filename@, p) ==> file_program(
                source_views(sources@),
                p,
            ) matches Some(Ok(_))) ==> out is Ok,
        out matches Err(LinkError::Missing(p)) ==> file_program(source_views(sources@), p@) is None
            && reaches(source_views(sources@), filename@, p@),
        out matches Err(LinkError::Rejected(f, e)) ==> file_program(source_views(sources@), f@)
            == Some(Err::<Program, Fault>(e@)) && reaches(source_views(sources@), filename@, f@),
        out matches Ok(o) ==> {
            &&& file_program(source_views(sources@), filename@) matches Some(Ok(_))
            &&& !can_call(source_views(sources@), filename@, "main"@) ==> (o.error matches Some(
                EvalError::Resolution(_),
            )) && o.output@.len() == 0
        },
{
    let mut memo: Vec<MemoEntry> = Vec::new();
    let mut looktables: Vec<LookTable> = Vec::new();
    let mut globals: Vec<Node> = Vec::new();
    let mut objsys = ObjSys::new();
    let mut ctx = Ctx::new(filename.clone(), debug);
    let ghost all = source_views(sources@);
    proof {
        assert(memo_views(memo@) =~= Seq::<MemoView>::empty());
        assert(table_views(looktables@) =~= Seq::<TableView>::empty());
        assert(node_views(globals@) =~= Seq::<Ast>::empty());
        assert(link_of(memo@, looktables@, globals@, objsys) == nothing_linked());
        law_visit_needs(all, filename@, nothing_linked());
    }
    match filecurse(
        filename.clone(),
        sources,
        &mut memo,
        &mut looktables,
        &mut globals,
        &mut objsys,
        &mut ctx,
    ) {
        Ok(_) => {},
        Err(e) => {
            return Err(e);
        },
    }
    let ghost mv = memo_views(memo@);
    let ghost tv = table_views(looktables@);
    let ghost gv = node_views(globals@);
    let ghost w = world(&looktables, &globals);
    let ghost built = link_of(memo@, looktables@, globals@, objsys);
    let ghost none = Seq::<Seq<char>>::empty();
    let ghost start = initial(built.classes, filename@, fuel, none);
    proof {
        assert(visit(all, filename@, nothing_linked()) == Visit::Done(built));
        assert(w == World { tables: built.tables, globals: built.globals });
    }
    let found = match find_table(&looktables, &filename) {
        Some(t) => {
            proof {
                let table = tv[t as int];
                assert(table == looktables[t as int]@);
                assert(table_ok(all, mv, gv, table));
                let i = memo_at(mv, filename@, 0)->0;
                crate::linker::lemma_memo_at_stable(mv, mv, filename@, 0);
                assert(memo_ok(all, gv, mv[i]));
                lemma_range_declares(all, gv, mv[i], "main"@);
                let imports = imports_of(all, filename@);
                lemma_imports_declare(all, gv, mv, imports, imports.len() as int, "main"@);
                law_later_merge_decides(
                    entries_of(gv, mv[i].start, mv[i].end),
                    import_entries(gv, mv, imports, imports.len() as int),
                    "main"@,
                );
            }
            lookup(&looktables[t], &owned("main")).is_some()
        },
        None => false,
    };
    proof {
        crate::linker::lemma_memo_at_stable(mv, mv, filename@, 0);
        let i = memo_at(mv, filename@, 0)->0;
        assert(memo_ok(all, gv, mv[i]));
    }
    if !found {
        let o = Outcome {
            output: Vec::new(),
            error: Some(EvalError::Resolution(owned("No 'main' method found."))),
        };
        proof {
            assert(main_run(filename@, w, start) == Run::<ValueView>::Failed(
                Failure::Resolution,
                start.output,
            ));
            assert(string_views(o.output@) =~= start.output);
            assert(outcome_post(program_run(filename@, built, fuel, none), o));
        }
        return Ok(o);
    }
    let o = run_with_ids(&filename, &looktables, &globals, &objsys, debug, fuel, floats);
    proof {
        let ids = choose|ids: Seq<Seq<char>>|
            {
                &&& outcome_post(
                    main_run(filename@, w, #[trigger] initial(objsys@.classes, filename@, fuel, ids)),
                    o,
                )
                &&& (o.error matches Some(EvalError::OutOfIds) ==> ids.len() == usize::MAX)
            };
        assert(outcome_post(program_run(filename@, built, fuel, ids), o));
    }
    Ok(o)
}

} // verus!
