//! What a program means: the evaluation of a tree as a function of the
//! state of the machine.
//!
//! An evaluation is [`Run::Done`] with a result and the state it leaves,
//! [`Run::Failed`] with the kind of error that stops it and the lines
//! printed until then, or
//! [`Run::Unknown`] where the outcome hangs on what the library does not
//! compute itself: the arithmetic of doubles.
//!
//! Every evaluation of a node costs one step of the machine's budget, so a
//! later state never has more steps than an earlier one. The functions
//! test this ([`bounded`]) before they go on from a state, which makes
//! their recursion well founded, and the evaluator proves that the test
//! never fails.

use crate::linker::{resolve, table_at, TableView};
use crate::meaning::{
    arith_views, bits_views, compare_views, current, decides, objsys_after, store_after, this_of,
};
use crate::node::{Ast, AstKind};
use crate::object::{FieldView, FunctionView};
use crate::objsys::{field_set, instance_at, InstanceView, ObjSysView};
use crate::stack::{bound_at, declared, value_in, BindingView, Frame};
use crate::text::decimal;
use crate::value::ValueView;
use vstd::prelude::*;

verus! {

/// The state of a running program. The `ids` are those that wait for the
/// instances to come; the last of them is taken first.
pub struct Machine {
    pub store: Seq<Seq<Frame>>,
    pub objsys: ObjSysView,
    pub file: Seq<char>,
    pub output: Seq<Seq<char>>,
    pub fuel: nat,
    pub ids: Seq<Seq<char>>,
}

/// What a program is linked into: the lookup tables and the globals.
pub struct World {
    pub tables: Seq<TableView>,
    pub globals: Seq<Ast>,
}

/// The kinds of error that stop an evaluation.
pub enum Failure {
    Resolution,
    Type,
    Arithmetic,
    Exhausted,
    OutOfIds,
    Internal,
}

/// How a statement ends.
pub enum FlowView {
    Normal(ValueView),
    Return(ValueView),
}

/// The outcome of an evaluation: done, with the result and the state that
/// is left; failed, with the kind of the failure and the output at that
/// moment; or unknown.
pub enum Run<T> {
    Done(T, Machine),
    Failed(Failure, Seq<Seq<char>>),
    Unknown,
}

/// The outcome `r` of an evaluation that began in the state `m`, where it
/// leaves no more steps than `m` has; else unknown.
pub open spec fn bounded<T>(m: Machine, r: Run<T>) -> Run<T> {
    match r {
        Run::Done(_, after) => if after.fuel <= m.fuel {
            r
        } else {
            Run::Unknown
        },
        _ => r,
    }
}

/// The state with another stack.
pub open spec fn with_store(m: Machine, store: Seq<Seq<Frame>>) -> Machine {
    Machine { store, ..m }
}

/// How the values from `i` on print, separated by `sep`, behind `acc`;
/// none where a double is among them.
pub open spec fn shown_items(
    items: Seq<ValueView>,
    i: int,
    instances: Seq<InstanceView>,
    sep: Seq<char>,
    acc: Seq<char>,
) -> Option<Seq<char>>
    decreases items, items.len() - i,
{
    if i < 0 || i >= items.len() {
        Some(acc)
    } else {
        match shown(items[i], instances) {
            Some(t) => shown_items(
                items,
                i + 1,
                instances,
                sep,
                if i > 0 {
                    acc + sep + t
                } else {
                    acc + t
                },
            ),
            None => None,
        }
    }
}

/// How a value prints; none where a double is in it.
pub open spec fn shown(v: ValueView, instances: Seq<InstanceView>) -> Option<Seq<char>>
    decreases v, 0int,
{
    match v {
        ValueView::Int(i) => Some(decimal(i as int)),
        ValueView::Double(_) => None,
        ValueView::Bool(b) => Some(
            if b {
                "true"@
            } else {
                "false"@
            },
        ),
        ValueView::Str(s) => Some(s),
        ValueView::List(items) => match shown_items(items, 0, instances, ", "@, Seq::empty()) {
            Some(t) => Some("["@ + t + "]"@),
            None => None,
        },
        ValueView::Reference(id) => match instance_at(instances, id, 0) {
            Some(k) => Some("Instance of '"@ + instances[k].class_name + "'"@),
            None => Some("Instance of an unknown class"@),
        },
        ValueView::Class(name) => Some(name),
        ValueView::Function(_) => Some("Function"@),
        ValueView::Null => Some("null"@),
    }
}

/// The value of the field `name` of the instance of the given id.
pub open spec fn field_of(objsys: ObjSysView, id: Seq<char>, name: Seq<char>) -> Option<ValueView> {
    match instance_at(objsys.instances, id, 0) {
        Some(k) => match bound_at(
            objsys.instances[k].fields,
            name,
            objsys.instances[k].fields.len() as int,
        ) {
            Some(b) => Some(objsys.instances[k].fields[b].value),
            None => None,
        },
        None => None,
    }
}

/// The object system after the field `name` of the instance of the given
/// id was set; unchanged where there is no such instance.
pub open spec fn field_written(
    objsys: ObjSysView,
    id: Seq<char>,
    name: Seq<char>,
    value: ValueView,
) -> ObjSysView {
    match instance_at(objsys.instances, id, 0) {
        Some(k) => ObjSysView {
            instances: objsys.instances.update(
                k,
                InstanceView {
                    fields: field_set(objsys.instances[k].fields, name, value),
                    ..objsys.instances[k]
                },
            ),
            ..objsys
        },
        None => objsys,
    }
}

/// The stack with one more scope in the current call.
pub open spec fn entered(store: Seq<Seq<Frame>>) -> Seq<Seq<Frame>> {
    store.update(store.len() - 1, store.last().push(Seq::empty()))
}

/// The stack without the innermost scope of the current call, unless it
/// is the only one.
pub open spec fn left(store: Seq<Seq<Frame>>) -> Seq<Seq<Frame>> {
    if store.len() > 0 && store.last().len() > 1 {
        store.update(store.len() - 1, store.last().drop_last())
    } else {
        store
    }
}

/// The stack without the current call.
pub open spec fn returned(store: Seq<Seq<Frame>>) -> Seq<Seq<Frame>> {
    if store.len() > 0 {
        store.drop_last()
    } else {
        store
    }
}

/// The stack with `name` declared in the innermost scope of the current
/// call; unchanged where no call is on it.
pub open spec fn declared_in(store: Seq<Seq<Frame>>, name: Seq<char>, value: ValueView) -> Seq<
    Seq<Frame>,
> {
    if store.len() > 0 {
        store.update(store.len() - 1, declared(store.last(), name, value))
    } else {
        store
    }
}

/// The index in the globals to which `name` resolves from the file
/// `file`.
pub open spec fn resolved(w: World, file: Seq<char>, name: Seq<char>) -> Option<int> {
    match table_at(w.tables, file, 0) {
        Some(t) => match resolve(w.tables[t].names, name, w.tables[t].names.len() as int) {
            Some(i) => if 0 <= i < w.globals.len() {
                Some(i)
            } else {
                None
            },
            None => None,
        },
        None => None,
    }
}

/// Evaluates a node: one step, then what the kind of the node asks for.
#[verifier::opaque]
pub open spec fn run(t: Ast, w: World, m: Machine) -> Run<FlowView>
    decreases m.fuel, 0int, 0int,
{
    if m.fuel == 0 {
        Run::Failed(Failure::Exhausted, m.output)
    } else {
        let m1 = Machine { fuel: (m.fuel - 1) as nat, ..m };
        match t.kind {
            AstKind::FunDef(_, _) | AstKind::Block | AstKind::Assign | AstKind::Conditional
            | AstKind::While | AstKind::DoWhile | AstKind::For | AstKind::Return => statement_run(
                t,
                w,
                m1,
            ),
            _ => expression_run(t, w, m1),
        }
    }
}

/// What an expression asks for, by its kind.
#[verifier::opaque]
pub open spec fn expression_run(t: Ast, w: World, m1: Machine) -> Run<FlowView>
    decreases m1.fuel, 8int, 0int,
{
    match t.kind {
        AstKind::Int(v) => Run::Done(FlowView::Normal(ValueView::Int(v)), m1),
        AstKind::Double(_) => Run::Unknown,
        AstKind::Bool(b) => Run::Done(FlowView::Normal(ValueView::Bool(b)), m1),
        AstKind::Null => Run::Done(FlowView::Normal(ValueView::Null), m1),
        AstKind::Str(raw) => str_from(t, raw, 0, 0, Seq::empty(), w, m1),
        AstKind::Name(name) => name_run(t, name, w, m1),
        AstKind::Add | AstKind::Sub | AstKind::Mul | AstKind::Div => arith_run(t, w, m1),
        AstKind::Equal | AstKind::LessThan | AstKind::GreaterThan | AstKind::LessOrEq
        | AstKind::GreaterOrEq => compare_run(t, w, m1),
        AstKind::LogAnd | AstKind::LogOr => logic_run(t, w, m1),
        AstKind::BitAnd | AstKind::BitOr | AstKind::BitXor => bits_run(t, w, m1),
        AstKind::Not => if t.children.len() != 1 {
            Run::Failed(Failure::Internal, m1.output)
        } else {
            match truth_run(t.children[0], w, m1) {
                Run::Done(b, m2) => Run::Done(FlowView::Normal(ValueView::Bool(!b)), m2),
                Run::Failed(k, o) => Run::Failed(k, o),
                Run::Unknown => Run::Unknown,
            }
        },
        AstKind::PreIncrement => step_run(t, 1, false, m1),
        AstKind::PreDecrement => step_run(t, -1, false, m1),
        AstKind::PostIncrement => step_run(t, 1, true, m1),
        AstKind::PostDecrement => step_run(t, -1, true, m1),
        AstKind::FunCall(name) => call_run(t, name, w, m1),
        AstKind::MethodCall(name, owner, _) => method_run(t, name, *owner, w, m1),
        AstKind::List => match values_run(t.children, 0, w, m1, Seq::empty()) {
            Run::Done(items, m2) => Run::Done(FlowView::Normal(ValueView::List(items)), m2),
            Run::Failed(k, o) => Run::Failed(k, o),
            Run::Unknown => Run::Unknown,
        },
        _ => Run::Failed(Failure::Internal, m1.output),
    }
}

/// What a statement asks for, by its kind.
#[verifier::opaque]
pub open spec fn statement_run(t: Ast, w: World, m1: Machine) -> Run<FlowView>
    decreases m1.fuel, 8int, 0int,
{
    match t.kind {
        AstKind::FunDef(name, _) => if m1.store.len() > 0 {
            Run::Done(
                FlowView::Normal(ValueView::Null),
                with_store(m1, declared_in(m1.store, name, ValueView::Function(t))),
            )
        } else {
            Run::Failed(Failure::Internal, m1.output)
        },
        AstKind::Block => scoped_run(t, w, m1),
        AstKind::Assign => assign_run(t, w, m1),
        AstKind::Conditional => conditional_run(t, 0, w, m1),
        AstKind::While => if t.children.len() != 2 {
            Run::Failed(Failure::Internal, m1.output)
        } else {
            loop_run(t.children[0], t.children[1], false, w, m1)
        },
        AstKind::DoWhile => if t.children.len() != 2 {
            Run::Failed(Failure::Internal, m1.output)
        } else {
            loop_run(t.children[1], t.children[0], true, w, m1)
        },
        AstKind::For => for_run(t, w, m1),
        AstKind::Return => if t.children.len() != 1 {
            Run::Failed(Failure::Internal, m1.output)
        } else {
            match value_run(t.children[0], w, m1) {
                Run::Done(v, m2) => Run::Done(FlowView::Return(v), m2),
                Run::Failed(k, o) => Run::Failed(k, o),
                Run::Unknown => Run::Unknown,
            }
        },
        _ => Run::Failed(Failure::Internal, m1.output),
    }
}

/// Evaluates a node to a value; a `return` inside it yields its value.
#[verifier::opaque]
pub open spec fn value_run(t: Ast, w: World, m: Machine) -> Run<ValueView>
    decreases m.fuel, 1int, 0int,
{
    match bounded(m, run(t, w, m)) {
        Run::Done(FlowView::Normal(v), m2) => Run::Done(v, m2),
        Run::Done(FlowView::Return(v), m2) => Run::Done(v, m2),
        Run::Failed(k, o) => Run::Failed(k, o),
        Run::Unknown => Run::Unknown,
    }
}

/// Evaluates a node that is to yield a truth value.
#[verifier::opaque]
pub open spec fn truth_run(t: Ast, w: World, m: Machine) -> Run<bool>
    decreases m.fuel, 2int, 0int,
{
    match value_run(t, w, m) {
        Run::Done(ValueView::Bool(b), m2) => Run::Done(b, m2),
        Run::Done(_, mz) => Run::Failed(Failure::Type, mz.output),
        Run::Failed(k, o) => Run::Failed(k, o),
        Run::Unknown => Run::Unknown,
    }
}

/// Evaluates the trees from `i` on, in order, behind the values in `acc`.
#[verifier::opaque]
pub open spec fn values_run(ts: Seq<Ast>, i: int, w: World, m: Machine, acc: Seq<ValueView>) -> Run<
    Seq<ValueView>,
>
    decreases m.fuel, 2int, ts.len() - i,
{
    if i < 0 || i >= ts.len() {
        Run::Done(acc, m)
    } else {
        match bounded(m, value_run(ts[i], w, m)) {
            Run::Done(v, m2) => values_run(ts, i + 1, w, m2, acc.push(v)),
            Run::Failed(k, o) => Run::Failed(k, o),
            Run::Unknown => Run::Unknown,
        }
    }
}

/// What `+`, `-`, `*`, `/` make of two values.
pub open spec fn arith_outcome(kind: AstKind, a: ValueView, b: ValueView, m: Machine) -> Run<FlowView> {
    match (a, b) {
        (ValueView::Int(_), ValueView::Int(_)) => match arith_views(kind, a, b) {
            Some(r) => Run::Done(FlowView::Normal(r), m),
            None => Run::Failed(Failure::Arithmetic, m.output),
        },
        (ValueView::Int(_), ValueView::Double(_)) => Run::Unknown,
        (ValueView::Double(_), ValueView::Int(_)) => Run::Unknown,
        (ValueView::Double(_), ValueView::Double(_)) => Run::Unknown,
        (ValueView::Str(_), ValueView::Str(_)) => match arith_views(kind, a, b) {
            Some(r) => Run::Done(FlowView::Normal(r), m),
            None => Run::Failed(Failure::Type, m.output),
        },
        (ValueView::List(_), ValueView::List(_)) => match arith_views(kind, a, b) {
            Some(r) => Run::Done(FlowView::Normal(r), m),
            None => Run::Failed(Failure::Type, m.output),
        },
        _ => Run::Failed(Failure::Type, m.output),
    }
}

/// `+`, `-`, `*`, `/` on two operands, and `-` on one.
#[verifier::opaque]
pub open spec fn arith_run(t: Ast, w: World, m: Machine) -> Run<FlowView>
    decreases m.fuel, 3int, 0int,
{
    if t.children.len() == 1 {
        match value_run(t.children[0], w, m) {
            Run::Done(a, m2) => match (t.kind, a) {
                (AstKind::Sub, ValueView::Int(x)) => if x > i64::MIN {
                    Run::Done(FlowView::Normal(ValueView::Int((-x) as i64)), m2)
                } else {
                    Run::Failed(Failure::Arithmetic, m2.output)
                },
                (AstKind::Sub, ValueView::Double(_)) => Run::Unknown,
                _ => Run::Failed(Failure::Type, m2.output),
            },
            Run::Failed(k, o) => Run::Failed(k, o),
            Run::Unknown => Run::Unknown,
        }
    } else if t.children.len() != 2 {
        Run::Failed(Failure::Internal, m.output)
    } else {
        match bounded(m, value_run(t.children[0], w, m)) {
            Run::Done(a, m2) => match value_run(t.children[1], w, m2) {
                Run::Done(b, m3) => arith_outcome(t.kind, a, b, m3),
                Run::Failed(k, o) => Run::Failed(k, o),
                Run::Unknown => Run::Unknown,
            },
            Run::Failed(k, o) => Run::Failed(k, o),
            Run::Unknown => Run::Unknown,
        }
    }
}

/// What `==`, `<`, `>`, `<=`, `>=` make of two values.
pub open spec fn compare_outcome(kind: AstKind, a: ValueView, b: ValueView, m: Machine) -> Run<
    FlowView,
> {
    if kind is Equal {
        match compare_views(kind, a, b) {
            Some(r) => Run::Done(FlowView::Normal(r), m),
            None => Run::Unknown,
        }
    } else {
        match (a, b) {
            (ValueView::Int(_), ValueView::Int(_)) => match compare_views(kind, a, b) {
                Some(r) => Run::Done(FlowView::Normal(r), m),
                None => Run::Failed(Failure::Internal, m.output),
            },
            (ValueView::Int(_), ValueView::Double(_)) => Run::Unknown,
            (ValueView::Double(_), ValueView::Int(_)) => Run::Unknown,
            (ValueView::Double(_), ValueView::Double(_)) => Run::Unknown,
            _ => Run::Failed(Failure::Type, m.output),
        }
    }
}

/// `==`, `<`, `>`, `<=`, `>=` on two operands.
#[verifier::opaque]
pub open spec fn compare_run(t: Ast, w: World, m: Machine) -> Run<FlowView>
    decreases m.fuel, 3int, 0int,
{
    if t.children.len() != 2 {
        Run::Failed(Failure::Internal, m.output)
    } else {
        match bounded(m, value_run(t.children[0], w, m)) {
            Run::Done(a, m2) => match value_run(t.children[1], w, m2) {
                Run::Done(b, m3) => compare_outcome(t.kind, a, b, m3),
                Run::Failed(k, o) => Run::Failed(k, o),
                Run::Unknown => Run::Unknown,
            },
            Run::Failed(k, o) => Run::Failed(k, o),
            Run::Unknown => Run::Unknown,
        }
    }
}

/// `&&` and `||`: the right operand is evaluated only where the left one
/// does not decide.
#[verifier::opaque]
pub open spec fn logic_run(t: Ast, w: World, m: Machine) -> Run<FlowView>
    decreases m.fuel, 3int, 0int,
{
    if t.children.len() != 2 {
        Run::Failed(Failure::Internal, m.output)
    } else {
        match bounded(m, truth_run(t.children[0], w, m)) {
            Run::Done(a, m2) => if decides(t.kind, a) {
                Run::Done(FlowView::Normal(ValueView::Bool(a)), m2)
            } else {
                match truth_run(t.children[1], w, m2) {
                    Run::Done(b, m3) => Run::Done(FlowView::Normal(ValueView::Bool(b)), m3),
                    Run::Failed(k, o) => Run::Failed(k, o),
                    Run::Unknown => Run::Unknown,
                }
            },
            Run::Failed(k, o) => Run::Failed(k, o),
            Run::Unknown => Run::Unknown,
        }
    }
}

/// `&`, `|` and `^` on two operands.
#[verifier::opaque]
pub open spec fn bits_run(t: Ast, w: World, m: Machine) -> Run<FlowView>
    decreases m.fuel, 3int, 0int,
{
    if t.children.len() != 2 {
        Run::Failed(Failure::Internal, m.output)
    } else {
        match bounded(m, value_run(t.children[0], w, m)) {
            Run::Done(a, m2) => match value_run(t.children[1], w, m2) {
                Run::Done(b, m3) => match (a, b) {
                    (ValueView::Int(_), ValueView::Int(_)) => match bits_views(t.kind, a, b) {
                        Some(r) => Run::Done(FlowView::Normal(r), m3),
                        None => Run::Failed(Failure::Internal, m3.output),
                    },
                    _ => Run::Failed(Failure::Type, m3.output),
                },
                Run::Failed(k, o) => Run::Failed(k, o),
                Run::Unknown => Run::Unknown,
            },
            Run::Failed(k, o) => Run::Failed(k, o),
            Run::Unknown => Run::Unknown,
        }
    }
}

/// A string literal from the character `i` of its text on: every hole
/// mark is replaced by what the expression of the next hole prints.
#[verifier::opaque]
pub open spec fn str_from(
    t: Ast,
    raw: Seq<char>,
    i: int,
    hole: int,
    text: Seq<char>,
    w: World,
    m: Machine,
) -> Run<FlowView>
    decreases m.fuel, 3int, raw.len() - i,
{
    if i < 0 || i >= raw.len() {
        Run::Done(FlowView::Normal(ValueView::Str(text)), m)
    } else if raw[i] == '\0' && 0 <= hole < t.children.len() {
        match bounded(m, value_run(t.children[hole], w, m)) {
            Run::Done(v, m2) => match shown(v, m2.objsys.instances) {
                Some(part) => str_from(t, raw, i + 1, hole + 1, text + part, w, m2),
                None => Run::Unknown,
            },
            Run::Failed(k, o) => Run::Failed(k, o),
            Run::Unknown => Run::Unknown,
        }
    } else {
        str_from(t, raw, i + 1, hole, text.push(raw[i]), w, m)
    }
}

/// What a name without an owner means: a variable of the current call,
/// else a field of `this`, else a class.
pub open spec fn name_value(name: Seq<char>, m: Machine) -> Option<ValueView> {
    match value_in(current(m.store), name) {
        Some(v) => Some(v),
        None => {
            let field = match this_of(current(m.store)) {
                Some(id) => field_of(m.objsys, id, name),
                None => None,
            };
            match field {
                Some(v) => Some(v),
                None => if m.objsys.class_index(name, m.objsys.classes.len() as int) is Some {
                    Some(ValueView::Class(name))
                } else {
                    None
                },
            }
        },
    }
}

/// A name; with an owner as its child, a field of the owner.
#[verifier::opaque]
pub open spec fn name_run(t: Ast, name: Seq<char>, w: World, m: Machine) -> Run<FlowView>
    decreases m.fuel, 3int, 0int,
{
    if t.children.len() > 0 {
        match value_run(t.children[0], w, m) {
            Run::Done(ValueView::Reference(id), m2) => match field_of(m2.objsys, id, name) {
                Some(v) => Run::Done(FlowView::Normal(v), m2),
                None => Run::Failed(Failure::Resolution, m2.output),
            },
            Run::Done(_, mz) => Run::Failed(Failure::Type, mz.output),
            Run::Failed(k, o) => Run::Failed(k, o),
            Run::Unknown => Run::Unknown,
        }
    } else {
        match name_value(name, m) {
            Some(v) => Run::Done(FlowView::Normal(v), m),
            None => Run::Failed(Failure::Resolution, m.output),
        }
    }
}

/// The state after `name` got a new value; a failure without a call.
pub open spec fn stored(name: Seq<char>, value: ValueView, m: Machine) -> Run<()> {
    if m.store.len() > 0 {
        Run::Done(
            (),
            Machine {
                store: store_after(m.store, m.objsys, name, value),
                objsys: objsys_after(m.store, m.objsys, name, value),
                ..m
            },
        )
    } else {
        Run::Failed(Failure::Internal, m.output)
    }
}

/// `target = value`.
#[verifier::opaque]
pub open spec fn assign_run(t: Ast, w: World, m: Machine) -> Run<FlowView>
    decreases m.fuel, 3int, 0int,
{
    if t.children.len() != 2 {
        Run::Failed(Failure::Internal, m.output)
    } else {
        match value_run(t.children[1], w, m) {
            Run::Done(v, m2) => match t.children[0].kind {
                AstKind::TypedVar(_, name) => if m2.store.len() > 0 {
                    Run::Done(
                        FlowView::Normal(ValueView::Null),
                        with_store(m2, declared_in(m2.store, name, v)),
                    )
                } else {
                    Run::Failed(Failure::Internal, m2.output)
                },
                AstKind::Name(name) => match stored(name, v, m2) {
                    Run::Done(_, m3) => Run::Done(FlowView::Normal(ValueView::Null), m3),
                    Run::Failed(k, o) => Run::Failed(k, o),
                    Run::Unknown => Run::Unknown,
                },
                _ => Run::Failed(Failure::Type, m2.output),
            },
            Run::Failed(k, o) => Run::Failed(k, o),
            Run::Unknown => Run::Unknown,
        }
    }
}

/// `++` and `--` before or behind a name.
pub open spec fn step_run(t: Ast, delta: int, post: bool, m: Machine) -> Run<FlowView> {
    if t.children.len() != 1 {
        Run::Failed(Failure::Internal, m.output)
    } else {
        match t.children[0].kind {
            AstKind::Name(name) => {
                let old_value = match value_in(current(m.store), name) {
                    Some(v) => Some(v),
                    None => match this_of(current(m.store)) {
                        Some(id) => field_of(m.objsys, id, name),
                        None => None,
                    },
                };
                match old_value {
                    None => Run::Failed(Failure::Resolution, m.output),
                    Some(ValueView::Int(x)) => if i64::MIN <= x + delta <= i64::MAX {
                        match stored(name, ValueView::Int((x + delta) as i64), m) {
                            Run::Done(_, m2) => Run::Done(
                                FlowView::Normal(
                                    ValueView::Int(
                                        if post {
                                            x
                                        } else {
                                            (x + delta) as i64
                                        },
                                    ),
                                ),
                                m2,
                            ),
                            Run::Failed(k, o) => Run::Failed(k, o),
                            Run::Unknown => Run::Unknown,
                        }
                    } else {
                        Run::Failed(Failure::Arithmetic, m.output)
                    },
                    Some(_) => Run::Failed(Failure::Type, m.output),
                }
            },
            _ => Run::Failed(Failure::Type, m.output),
        }
    }
}

/// The statements from `i` on, in the scope that is current; a `return`
/// ends them at once.
#[verifier::opaque]
pub open spec fn statements_run(ts: Seq<Ast>, i: int, w: World, m: Machine, last: ValueView) -> Run<
    FlowView,
>
    decreases m.fuel, 3int, ts.len() - i,
{
    if i < 0 || i >= ts.len() {
        Run::Done(FlowView::Normal(last), m)
    } else {
        match bounded(m, run(ts[i], w, m)) {
            Run::Done(FlowView::Normal(v), m2) => statements_run(ts, i + 1, w, m2, v),
            Run::Done(FlowView::Return(v), m2) => Run::Done(FlowView::Return(v), m2),
            Run::Failed(k, o) => Run::Failed(k, o),
            Run::Unknown => Run::Unknown,
        }
    }
}

/// A block in a scope of its own, which is left when the block ends.
#[verifier::opaque]
pub open spec fn scoped_run(t: Ast, w: World, m: Machine) -> Run<FlowView>
    decreases m.fuel, 4int, 0int,
{
    if m.store.len() == 0 {
        Run::Failed(Failure::Internal, m.output)
    } else {
        match statements_run(t.children, 0, w, with_store(m, entered(m.store)), ValueView::Null) {
            Run::Done(flow, m2) => Run::Done(flow, with_store(m2, left(m2.store))),
            Run::Failed(k, o) => Run::Failed(k, o),
            Run::Unknown => Run::Unknown,
        }
    }
}

/// A conditional from its arm `i` on: the arms in turn, until the
/// condition of one holds or an `else` is reached.
#[verifier::opaque]
pub open spec fn conditional_run(t: Ast, i: int, w: World, m: Machine) -> Run<FlowView>
    decreases m.fuel, 5int, t.children.len() - i,
{
    if i < 0 || i >= t.children.len() {
        Run::Done(FlowView::Normal(ValueView::Null), m)
    } else {
        let arm = t.children[i];
        match arm.kind {
            AstKind::Else => if arm.children.len() != 1 {
                Run::Failed(Failure::Internal, m.output)
            } else {
                scoped_run(arm.children[0], w, m)
            },
            AstKind::If | AstKind::ElseIf => if arm.children.len() != 2 {
                Run::Failed(Failure::Internal, m.output)
            } else {
                match bounded(m, truth_run(arm.children[0], w, m)) {
                    Run::Done(holds, m2) => if holds {
                        scoped_run(arm.children[1], w, m2)
                    } else {
                        conditional_run(t, i + 1, w, m2)
                    },
                    Run::Failed(k, o) => Run::Failed(k, o),
                    Run::Unknown => Run::Unknown,
                }
            },
            _ => Run::Failed(Failure::Internal, m.output),
        }
    }
}

/// `while` and `do ... while`: the body in a scope of its own as long as
/// the condition holds; with `body_first`, once before the condition is
/// looked at.
#[verifier::opaque]
pub open spec fn loop_run(cond: Ast, body: Ast, body_first: bool, w: World, m: Machine) -> Run<FlowView>
    decreases m.fuel, 5int, if body_first { 1int } else { 0int },
{
    if body_first {
        match bounded(m, scoped_run(body, w, m)) {
            Run::Done(FlowView::Normal(_), m2) => loop_run(cond, body, false, w, m2),
            Run::Done(FlowView::Return(v), m2) => Run::Done(FlowView::Return(v), m2),
            Run::Failed(k, o) => Run::Failed(k, o),
            Run::Unknown => Run::Unknown,
        }
    } else {
        match bounded(m, truth_run(cond, w, m)) {
            Run::Done(holds, m2) => if !holds {
                Run::Done(FlowView::Normal(ValueView::Null), m2)
            } else if m2.fuel < m.fuel {
                match bounded(m2, scoped_run(body, w, m2)) {
                    Run::Done(FlowView::Normal(_), m3) => loop_run(cond, body, false, w, m3),
                    Run::Done(FlowView::Return(v), m3) => Run::Done(FlowView::Return(v), m3),
                    Run::Failed(k, o) => Run::Failed(k, o),
                    Run::Unknown => Run::Unknown,
                }
            } else {
                Run::Unknown
            },
            Run::Failed(k, o) => Run::Failed(k, o),
            Run::Unknown => Run::Unknown,
        }
    }
}

/// The rounds of a `for`: as long as the condition holds, the body in a
/// scope of its own and the step.
#[verifier::opaque]
pub open spec fn rounds_run(t: Ast, w: World, m: Machine) -> Run<FlowView>
    decreases m.fuel, 4int, 0int,
{
    match bounded(m, truth_run(t.children[1], w, m)) {
        Run::Done(holds, m2) => if !holds {
            Run::Done(FlowView::Normal(ValueView::Null), m2)
        } else if m2.fuel < m.fuel {
            match bounded(m2, scoped_run(t.children[3], w, m2)) {
                Run::Done(FlowView::Normal(_), m3) => match bounded(m3, run(t.children[2], w, m3)) {
                    Run::Done(_, m4) => rounds_run(t, w, m4),
                    Run::Failed(k, o) => Run::Failed(k, o),
                    Run::Unknown => Run::Unknown,
                },
                Run::Done(FlowView::Return(v), m3) => Run::Done(FlowView::Return(v), m3),
                Run::Failed(k, o) => Run::Failed(k, o),
                Run::Unknown => Run::Unknown,
            }
        } else {
            Run::Unknown
        },
        Run::Failed(k, o) => Run::Failed(k, o),
        Run::Unknown => Run::Unknown,
    }
}

/// What a `for` does in the scope of its variable: the initial
/// assignment, then the rounds.
#[verifier::opaque]
pub open spec fn for_inner_run(t: Ast, w: World, m: Machine) -> Run<FlowView>
    decreases m.fuel, 5int, 0int,
{
    match bounded(m, run(t.children[0], w, m)) {
        Run::Done(_, m2) => rounds_run(t, w, m2),
        Run::Failed(k, o) => Run::Failed(k, o),
        Run::Unknown => Run::Unknown,
    }
}

/// `for`: a scope of its own for the variable, which is left when the
/// loop ends.
#[verifier::opaque]
pub open spec fn for_run(t: Ast, w: World, m: Machine) -> Run<FlowView>
    decreases m.fuel, 6int, 0int,
{
    if t.children.len() != 4 {
        Run::Failed(Failure::Internal, m.output)
    } else if m.store.len() == 0 {
        Run::Failed(Failure::Internal, m.output)
    } else {
        match for_inner_run(t, w, with_store(m, entered(m.store))) {
            Run::Done(flow, m3) => Run::Done(flow, with_store(m3, left(m3.store))),
            Run::Failed(k, o) => Run::Failed(k, o),
            Run::Unknown => Run::Unknown,
        }
    }
}

/// The state after the arguments were bound to the first `i` parameters,
/// from the last of them to the first; a failure where a parameter is no
/// name, or writes a field without an instance.
pub open spec fn bound_params(
    params: Seq<Ast>,
    args: Seq<ValueView>,
    i: int,
    this: Option<Seq<char>>,
    m: Machine,
) -> Run<()>
    decreases i,
{
    if i <= 0 {
        Run::Done((), m)
    } else {
        match params[i - 1].kind {
            AstKind::Name(name) => bound_params(
                params,
                args,
                i - 1,
                this,
                with_store(m, declared_in(m.store, name, args[i - 1])),
            ),
            AstKind::ThisFieldInit(name) => match this {
                Some(id) => bound_params(
                    params,
                    args,
                    i - 1,
                    this,
                    Machine { objsys: field_written(m.objsys, id, name, args[i - 1]), ..m },
                ),
                None => Run::Failed(Failure::Type, m.output),
            },
            _ => Run::Failed(Failure::Internal, m.output),
        }
    }
}

/// Runs a function or a method: a new call with the arguments bound to
/// the parameters (and `this` to the receiver), the body in it with calls
/// resolved from the file of the function, and the value that the body
/// returns.
#[verifier::opaque]
pub open spec fn invoke_run(
    params: Ast,
    body: Ast,
    file: Seq<char>,
    args: Seq<ValueView>,
    this: Option<Seq<char>>,
    w: World,
    m: Machine,
) -> Run<ValueView>
    decreases m.fuel, 5int, 0int,
{
    if params.children.len() != args.len() {
        Run::Failed(Failure::Type, m.output)
    } else {
        let m1 = with_store(m, m.store.push(seq![Seq::<BindingView>::empty()]));
        match bound_params(params.children, args, params.children.len() as int, this, m1) {
            Run::Done(_, m2) => if m2.fuel <= m.fuel {
                let m3 = match this {
                    Some(id) => with_store(
                        m2,
                        declared_in(m2.store, "this"@, ValueView::Reference(id)),
                    ),
                    None => m2,
                };
                let m4 = Machine { file, ..m3 };
                let out = match body.kind {
                    AstKind::Block => statements_run(body.children, 0, w, m4, ValueView::Null),
                    AstKind::Null => Run::Done(FlowView::Normal(ValueView::Null), m4),
                    _ => Run::Failed(Failure::Internal, m2.output),
                };
                match out {
                    Run::Done(flow, m5) => Run::Done(
                        match flow {
                            FlowView::Normal(_) => ValueView::Null,
                            FlowView::Return(v) => v,
                        },
                        Machine { file: m.file, store: returned(m5.store), ..m5 },
                    ),
                    Run::Failed(k, o) => Run::Failed(k, o),
                    Run::Unknown => Run::Unknown,
                }
            } else {
                Run::Unknown
            },
            Run::Failed(k, o) => Run::Failed(k, o),
            Run::Unknown => Run::Unknown,
        }
    }
}

/// The line that `print` writes: what the values print, separated by
/// spaces.
pub open spec fn printed(args: Seq<ValueView>, instances: Seq<InstanceView>) -> Option<Seq<char>> {
    shown_items(args, 0, instances, " "@, Seq::empty())
}

/// A call by name: `print`, a function declared in the current call, or
/// what the name resolves to from the current file, a function or the
/// constructor of a class. A new instance takes the id that waits last in
/// the machine; where none waits, the call fails.
#[verifier::opaque]
pub open spec fn call_run(t: Ast, name: Seq<char>, w: World, m: Machine) -> Run<FlowView>
    decreases m.fuel, 7int, 0int,
{
    if t.children.len() != 1 {
        Run::Failed(Failure::Internal, m.output)
    } else {
        match bounded(m, values_run(t.children[0].children, 0, w, m, Seq::empty())) {
            Run::Done(args, m2) => if name == "print"@ {
                match printed(args, m2.objsys.instances) {
                    Some(line) => Run::Done(
                        FlowView::Normal(ValueView::Null),
                        Machine { output: m2.output.push(line), ..m2 },
                    ),
                    None => Run::Unknown,
                }
            } else {
                match value_in(current(m2.store), name) {
                    Some(ValueView::Function(def)) => if def.children.len() != 2 {
                        Run::Failed(Failure::Internal, m2.output)
                    } else {
                        let file = match def.kind {
                            AstKind::FunDef(_, f) => f,
                            _ => m2.file,
                        };
                        match invoke_run(def.children[0], def.children[1], file, args, None, w, m2) {
                            Run::Done(v, m3) => Run::Done(FlowView::Normal(v), m3),
                            Run::Failed(k, o) => Run::Failed(k, o),
                            Run::Unknown => Run::Unknown,
                        }
                    },
                    _ => match resolved(w, m2.file, name) {
                        None => Run::Failed(Failure::Resolution, m2.output),
                        Some(i) => {
                            let decl = w.globals[i];
                            if decl.children.len() != 2 {
                                Run::Failed(Failure::Internal, m2.output)
                            } else {
                                match decl.kind {
                                    AstKind::FunDef(_, file) => match invoke_run(
                                        decl.children[0],
                                        decl.children[1],
                                        file,
                                        args,
                                        None,
                                        w,
                                        m2,
                                    ) {
                                        Run::Done(v, m3) => Run::Done(FlowView::Normal(v), m3),
                                        Run::Failed(k, o) => Run::Failed(k, o),
                                        Run::Unknown => Run::Unknown,
                                    },
                                    AstKind::Constructor(class, file) => if m2.objsys.class_index(
                                        class,
                                        m2.objsys.classes.len() as int,
                                    ) is None {
                                        Run::Failed(Failure::Resolution, m2.output)
                                    } else if m2.ids.len() == 0 {
                                        Run::Failed(Failure::OutOfIds, m2.output)
                                    } else {
                                        match construct_run(
                                            m2.ids.last(),
                                            decl,
                                            class,
                                            file,
                                            args,
                                            w,
                                            Machine { ids: m2.ids.drop_last(), ..m2 },
                                        ) {
                                            Run::Done(v, m3) => Run::Done(FlowView::Normal(v), m3),
                                            Run::Failed(k, o) => Run::Failed(k, o),
                                            Run::Unknown => Run::Unknown,
                                        }
                                    },
                                    _ => Run::Failed(Failure::Internal, m2.output),
                                }
                            }
                        },
                    },
                }
            },
            Run::Failed(k, o) => Run::Failed(k, o),
            Run::Unknown => Run::Unknown,
        }
    }
}

/// The parameter list of a method, as a tree.
pub open spec fn params_tree(method: FunctionView) -> Ast {
    Ast {
        kind: AstKind::ParamList,
        children: Seq::new(
            method.params.len(),
            |i: int| Ast::leaf(AstKind::Name(method.params[i].name)),
        ),
    }
}

/// A method call: the owner must be an instance; the method of its class
/// runs with `this` bound to it.
#[verifier::opaque]
pub open spec fn method_run(t: Ast, name: Seq<char>, owner: Ast, w: World, m: Machine) -> Run<FlowView>
    decreases m.fuel, 7int, 0int,
{
    if t.children.len() != 1 {
        Run::Failed(Failure::Internal, m.output)
    } else {
        match bounded(m, value_run(owner, w, m)) {
            Run::Done(ValueView::Reference(id), m2) => match bounded(
                m2,
                values_run(t.children[0].children, 0, w, m2, Seq::empty()),
            ) {
                Run::Done(args, m3) => match instance_at(m3.objsys.instances, id, 0) {
                    None => Run::Failed(Failure::Resolution, m3.output),
                    Some(k) => match m3.objsys.class_index(
                        m3.objsys.instances[k].class_name,
                        m3.objsys.classes.len() as int,
                    ) {
                        None => Run::Failed(Failure::Resolution, m3.output),
                        Some(c) => match m3.objsys.classes[c].method_index(
                            name,
                            m3.objsys.classes[c].methods.len() as int,
                        ) {
                            None => Run::Failed(Failure::Resolution, m3.output),
                            Some(f) => {
                                let method = m3.objsys.classes[c].methods[f];
                                match invoke_run(
                                    params_tree(method),
                                    method.body,
                                    method.file,
                                    args,
                                    Some(id),
                                    w,
                                    m3,
                                ) {
                                    Run::Done(v, m4) => Run::Done(FlowView::Normal(v), m4),
                                    Run::Failed(k, o) => Run::Failed(k, o),
                                    Run::Unknown => Run::Unknown,
                                }
                            },
                        },
                    },
                },
                Run::Failed(k, o) => Run::Failed(k, o),
                Run::Unknown => Run::Unknown,
            },
            Run::Done(_, mz) => Run::Failed(Failure::Type, mz.output),
            Run::Failed(k, o) => Run::Failed(k, o),
            Run::Unknown => Run::Unknown,
        }
    }
}

/// The fields of a new instance from the field `i` on: the first value of
/// every field is evaluated in a call of its own and written into the
/// instance of the given id.
#[verifier::opaque]
pub open spec fn fields_run(fields: Seq<FieldView>, i: int, id: Seq<char>, w: World, m: Machine) -> Run<
    (),
>
    decreases m.fuel, 2int, fields.len() - i,
{
    if i < 0 || i >= fields.len() {
        Run::Done((), m)
    } else {
        let inner = with_store(m, m.store.push(seq![Seq::<BindingView>::empty()]));
        match bounded(m, value_run(fields[i].default, w, inner)) {
            Run::Done(v, m2) => fields_run(
                fields,
                i + 1,
                id,
                w,
                Machine {
                    store: returned(m2.store),
                    objsys: field_written(m2.objsys, id, fields[i].name, v),
                    ..m2
                },
            ),
            Run::Failed(k, o) => Run::Failed(k, o),
            Run::Unknown => Run::Unknown,
        }
    }
}

/// Creates an instance of the class `class` under the id `id`: the
/// instance is registered, its fields get their first values, and the
/// constructor runs with `this` bound to it. The result refers to the
/// instance. An id that is in use is refused.
#[verifier::opaque]
pub open spec fn construct_run(
    id: Seq<char>,
    ctor: Ast,
    class: Seq<char>,
    file: Seq<char>,
    args: Seq<ValueView>,
    w: World,
    m: Machine,
) -> Run<ValueView>
    decreases m.fuel, 6int, 0int,
{
    if ctor.children.len() != 2 {
        Run::Failed(Failure::Internal, m.output)
    } else {
        match m.objsys.class_index(class, m.objsys.classes.len() as int) {
            None => Run::Failed(Failure::Resolution, m.output),
            Some(c) => if instance_at(m.objsys.instances, id, 0) is Some {
                Run::Failed(Failure::Internal, m.output)
            } else {
                let created = Machine {
                    objsys: ObjSysView {
                        instances: m.objsys.instances.push(
                            InstanceView { class_name: class, id, fields: Seq::empty() },
                        ),
                        ..m.objsys
                    },
                    ..m
                };
                match bounded(m, fields_run(m.objsys.classes[c].fields, 0, id, w, created)) {
                    Run::Done(_, m2) => match invoke_run(
                        ctor.children[0],
                        ctor.children[1],
                        file,
                        args,
                        Some(id),
                        w,
                        m2,
                    ) {
                        Run::Done(_, m3) => Run::Done(ValueView::Reference(id), m3),
                        Run::Failed(k, o) => Run::Failed(k, o),
                        Run::Unknown => Run::Unknown,
                    },
                    Run::Failed(k, o) => Run::Failed(k, o),
                    Run::Unknown => Run::Unknown,
                }
            },
        }
    }
}

} // verus!
