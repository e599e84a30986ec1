//! Runtime values.

use crate::node::{Ast, Node};
use vstd::prelude::*;

verus! {

/// A runtime value. A `Double` holds the bits of a floating-point number,
/// which only a [`Floats`] backend reads. A `Reference` holds the id of an
/// instance, a `Class` the name of a class, a `Function` the definition of
/// a function that was declared inside a function body.
#[derive(Debug)]
pub enum Value {
    Int(i64),
    Double(u64),
    Bool(bool),
    Str(String),
    List(Vec<Value>),
    Reference(String),
    Class(String),
    Function(Node),
    Null,
}

/// The mathematical value of a [`Value`].
pub enum ValueView {
    Int(i64),
    Double(u64),
    Bool(bool),
    Str(Seq<char>),
    List(Seq<ValueView>),
    Reference(Seq<char>),
    Class(Seq<char>),
    Function(Ast),
    Null,
}

/// The values of a sequence of runtime values, in order.
pub open spec fn value_views(vs: Seq<Value>) -> Seq<ValueView>
    decreases vs, 1int,
{
    Seq::new(vs.len(), |i: int| if 0 <= i < vs.len() { value_view(vs[i]) } else { ValueView::Null })
}

/// The mathematical value of a runtime value.
pub open spec fn value_view(v: Value) -> ValueView
    decreases v, 0int,
{
    match v {
        Value::Int(i) => ValueView::Int(i),
        Value::Double(bits) => ValueView::Double(bits),
        Value::Bool(b) => ValueView::Bool(b),
        Value::Str(s) => ValueView::Str(s@),
        Value::List(items) => ValueView::List(value_views(items@)),
        Value::Reference(id) => ValueView::Reference(id@),
        Value::Class(name) => ValueView::Class(name@),
        Value::Function(def) => ValueView::Function(def@),
        Value::Null => ValueView::Null,
    }
}

impl View for Value {
    type V = ValueView;

    open spec fn view(&self) -> ValueView {
        value_view(*self)
    }
}

/// `value_views` keeps the length and maps the values one by one.
pub proof fn lemma_value_views(vs: Seq<Value>)
    ensures
        value_views(vs).len() == vs.len(),
        forall|i: int| 0 <= i < vs.len() ==> (#[trigger] value_views(vs)[i]) == vs[i]@,
{
}

/// A copy of a sequence of values.
pub fn clone_values(vs: &Vec<Value>) -> (out: Vec<Value>)
    ensures
        value_views(out@) == value_views(vs@),
    decreases vs, 1int,
{
    let mut out: Vec<Value> = Vec::new();
    let mut i: usize = 0;
    while i < vs.len()
        invariant
            i <= vs.len(),
            out.len() == i,
            forall|k: int| 0 <= k < i ==> out[k]@ == vs[k]@,
        decreases vs.len() - i,
    {
        out.push(vs[i].clone());
        i += 1;
    }
    assert(value_views(out@) =~= value_views(vs@));
    out
}

impl Clone for Value {
    fn clone(&self) -> (out: Value)
        ensures
            out@ == self@,
        decreases self, 0int,
    {
        match self {
            Value::Int(i) => Value::Int(*i),
            Value::Double(bits) => Value::Double(*bits),
            Value::Bool(b) => Value::Bool(*b),
            Value::Str(s) => Value::Str(s.clone()),
            Value::List(items) => Value::List(clone_values(items)),
            Value::Reference(id) => Value::Reference(id.clone()),
            Value::Class(name) => Value::Class(name.clone()),
            Value::Function(def) => Value::Function(def.clone()),
            Value::Null => Value::Null,
        }
    }
}

/// Floating-point arithmetic, which the library leaves to its user: the
/// library decides when a number is read, converted, combined, compared or
/// shown, and hands the bits of the numbers to these operations.
pub trait Floats {
    /// The number that a literal writes (digits, a point, digits).
    fn parse(&self, literal: &str) -> u64;

    /// The number nearest to an integer.
    fn from_int(&self, i: i64) -> u64;

    fn add(&self, a: u64, b: u64) -> u64;

    fn sub(&self, a: u64, b: u64) -> u64;

    fn mul(&self, a: u64, b: u64) -> u64;

    fn div(&self, a: u64, b: u64) -> u64;

    fn neg(&self, a: u64) -> u64;

    fn less(&self, a: u64, b: u64) -> bool;

    fn equal(&self, a: u64, b: u64) -> bool;

    /// How the number prints.
    fn show(&self, a: u64) -> String;
}

} // verus!
