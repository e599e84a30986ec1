//! What the operators make of values, and where an assignment writes.

use crate::node::AstKind;
use crate::ops::int_result;
use crate::objsys::{field_set, instance_at, InstanceView, ObjSysView};
use crate::stack::{assigned, bound_at, value_in, Frame};
use crate::value::{value_views, Value, ValueView};
use vstd::prelude::*;

verus! {

/// The scopes of the current call; none where no call is on the stack.
pub open spec fn current(store: Seq<Seq<Frame>>) -> Seq<Frame> {
    if store.len() > 0 {
        store.last()
    } else {
        Seq::empty()
    }
}

/// Whether the lists are equal, place by place, from `i` on.
pub open spec fn equal_lists(a: Seq<ValueView>, b: Seq<ValueView>, i: int) -> Option<bool>
    decreases a, a.len() - i,
{
    if a.len() != b.len() {
        Some(false)
    } else if i < 0 || i >= a.len() {
        Some(true)
    } else {
        match equal_views(a[i], b[i]) {
            Some(true) => equal_lists(a, b, i + 1),
            other => other,
        }
    }
}

/// Whether two values are equal; none where a double decides.
pub open spec fn equal_views(a: ValueView, b: ValueView) -> Option<bool>
    decreases a, 0int,
{
    match (a, b) {
        (ValueView::Int(x), ValueView::Int(y)) => Some(x == y),
        (ValueView::Double(_), ValueView::Int(_)) => None,
        (ValueView::Int(_), ValueView::Double(_)) => None,
        (ValueView::Double(_), ValueView::Double(_)) => None,
        (ValueView::Bool(x), ValueView::Bool(y)) => Some(x == y),
        (ValueView::Str(x), ValueView::Str(y)) => Some(x == y),
        (ValueView::Reference(x), ValueView::Reference(y)) => Some(x == y),
        (ValueView::Class(x), ValueView::Class(y)) => Some(x == y),
        (ValueView::Null, ValueView::Null) => Some(true),
        (ValueView::List(x), ValueView::List(y)) => equal_lists(x, y, 0),
        _ => Some(false),
    }
}

/// `+`, `-`, `*`, `/` on two values: on integers the result where it fits
/// into 64 bits, and `+` joins two strings or two lists.
pub open spec fn arith_views(kind: AstKind, a: ValueView, b: ValueView) -> Option<ValueView> {
    match (a, b) {
        (ValueView::Int(x), ValueView::Int(y)) => match int_result(kind, x as int, y as int) {
            Some(r) => Some(ValueView::Int(r as i64)),
            None => None,
        },
        (ValueView::Str(x), ValueView::Str(y)) => if kind is Add {
            Some(ValueView::Str(x + y))
        } else {
            None
        },
        (ValueView::List(x), ValueView::List(y)) => if kind is Add {
            Some(ValueView::List(x + y))
        } else {
            None
        },
        _ => None,
    }
}

/// `==` on two values, and `<`, `>`, `<=`, `>=` on two integers.
pub open spec fn compare_views(kind: AstKind, a: ValueView, b: ValueView) -> Option<ValueView> {
    if kind is Equal {
        match equal_views(a, b) {
            Some(r) => Some(ValueView::Bool(r)),
            None => None,
        }
    } else {
        match (a, b) {
            (ValueView::Int(x), ValueView::Int(y)) => match kind {
                AstKind::LessThan => Some(ValueView::Bool(x < y)),
                AstKind::GreaterThan => Some(ValueView::Bool(x > y)),
                AstKind::LessOrEq => Some(ValueView::Bool(x <= y)),
                AstKind::GreaterOrEq => Some(ValueView::Bool(x >= y)),
                _ => None,
            },
            _ => None,
        }
    }
}

/// `&`, `|` and `^` on two integers.
pub open spec fn bits_views(kind: AstKind, a: ValueView, b: ValueView) -> Option<ValueView> {
    match (a, b) {
        (ValueView::Int(x), ValueView::Int(y)) => match kind {
            AstKind::BitAnd => Some(ValueView::Int(x & y)),
            AstKind::BitOr => Some(ValueView::Int(x | y)),
            AstKind::BitXor => Some(ValueView::Int(x ^ y)),
            _ => None,
        },
        _ => None,
    }
}

/// Whether the left operand of `&&` or `||` decides the result.
pub open spec fn decides(kind: AstKind, left: bool) -> bool {
    if kind is LogAnd {
        !left
    } else {
        left
    }
}

/// The values of two sequences, one behind the other.
pub proof fn lemma_value_views_add(a: Seq<Value>, b: Seq<Value>)
    ensures
        value_views(a + b) == value_views(a) + value_views(b),
{
    crate::value::lemma_value_views(a);
    crate::value::lemma_value_views(b);
    crate::value::lemma_value_views(a + b);
    assert(value_views(a + b) =~= value_views(a) + value_views(b));
}

/// The values of a sequence with one more value at its end.
pub proof fn lemma_value_views_push(a: Seq<Value>, v: Value)
    ensures
        value_views(a.push(v)) == value_views(a).push(v@),
{
    crate::value::lemma_value_views(a);
    crate::value::lemma_value_views(a.push(v));
    assert(value_views(a.push(v)) =~= value_views(a).push(v@));
}

/// The id of the instance that `this` names in a call, if it names one.
pub open spec fn this_of(call: Seq<Frame>) -> Option<Seq<char>> {
    match value_in(call, "this"@) {
        Some(ValueView::Reference(id)) => Some(id),
        _ => None,
    }
}

/// The index of the instance whose field an assignment to `name` writes:
/// that of `this`, where no scope of the call binds the name and the
/// instance has a field of that name.
pub open spec fn field_target(call: Seq<Frame>, objsys: ObjSysView, name: Seq<char>) -> Option<int> {
    if value_in(call, name) is Some {
        None
    } else {
        match this_of(call) {
            Some(id) => match instance_at(objsys.instances, id, 0) {
                Some(k) => if bound_at(
                    objsys.instances[k].fields,
                    name,
                    objsys.instances[k].fields.len() as int,
                ) is Some {
                    Some(k)
                } else {
                    None
                },
                None => None,
            },
            None => None,
        }
    }
}

/// The stack after an assignment to `name`: unchanged where the
/// assignment writes a field; else the current call is assigned to.
pub open spec fn store_after(
    store: Seq<Seq<Frame>>,
    objsys: ObjSysView,
    name: Seq<char>,
    value: ValueView,
) -> Seq<Seq<Frame>> {
    if field_target(current(store), objsys, name) is Some {
        store
    } else {
        store.update(store.len() - 1, assigned(store.last(), name, value))
    }
}

/// The object system after an assignment to `name`: the field of `this`
/// is written where the assignment writes a field; else nothing changes.
pub open spec fn objsys_after(
    store: Seq<Seq<Frame>>,
    objsys: ObjSysView,
    name: Seq<char>,
    value: ValueView,
) -> ObjSysView {
    match field_target(current(store), objsys, name) {
        Some(k) => ObjSysView {
            instances: objsys.instances.update(
                k,
                InstanceView {
                    fields: field_set(objsys.instances[k].fields, name, value),
                    ..objsys.instances[k]
                },
            ),
            ..objsys
        },
        None => objsys,
    }
}

} // verus!
