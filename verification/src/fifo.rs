//! First-in, first-out queues of nodes, kept by the `queues` crate.

use crate::node::Node;
use queues::{IsQueue, Queue};
use vstd::prelude::*;

verus! {

#[verifier::external_type_specification]
#[verifier::external_body]
#[verifier::reject_recursive_types(T)]
pub struct ExQueue<T: Clone>(Queue<T>);

/// The nodes that wait in the queue, the one that leaves next first.
pub uninterp spec fn queue_items(q: Queue<Node>) -> Seq<Node>;

/// `Queue::new` of `queues`: a queue in which nothing waits.
#[verifier::external_body]
pub(crate) fn queue_new() -> (q: Queue<Node>)
    ensures
        queue_items(q) == Seq::<Node>::empty(),
{
    Queue::new()
}

/// `add` of `queues`' `Queue`: the node is put behind those that wait;
/// such a queue has no bound and refuses nothing.
#[verifier::external_body]
pub(crate) fn queue_add(q: &mut Queue<Node>, n: Node)
    ensures
        queue_items(*final(q)) == queue_items(*old(q)).push(n),
{
    let _ = q.add(n);
}

/// `remove` of `queues`' `Queue`: the node that has waited longest leaves
/// and is returned; from an empty queue nothing leaves.
#[verifier::external_body]
pub(crate) fn queue_remove(q: &mut Queue<Node>) -> (out: Option<Node>)
    ensures
        queue_items(*old(q)).len() > 0 ==> out == Some(queue_items(*old(q))[0]) && queue_items(
            *final(q),
        ) == queue_items(*old(q)).drop_first(),
        queue_items(*old(q)).len() == 0 ==> out is None && queue_items(*final(q)) == queue_items(
            *old(q),
        ),
{
    match q.remove() {
        Ok(n) => Some(n),
        Err(_) => None,
    }
}

} // verus!
