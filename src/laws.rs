use vstd::prelude::*;
use crate::tree::{
    cancel_outcome, child_added, descends, done_state, lemma_descends_ge,
    lemma_descends_same_shape, root_added, well_formed, ContextBody, ContextError,
};

verus! {

/// A cause, once recorded, stays: canceling any node leaves every node
/// that was already canceled with the cause it had.
pub proof fn lemma_cancel_keeps_causes(before: Seq<ContextBody>, after: Seq<ContextBody>, id: int, e: ContextError, j: int)
    requires
        cancel_outcome(before, after, id, e),
        0 <= j < before.len(),
        before[j].canceled is Some,
    ensures
        after[j].canceled == before[j].canceled,
{
}

/// Making a node, root or child, changes the cause of no existing node.
pub proof fn lemma_creation_keeps_causes(before: Seq<ContextBody>, after: Seq<ContextBody>, parent: int, j: int)
    requires
        root_added(before, after) || child_added(before, after, parent),
        0 <= j < before.len(),
    ensures
        after[j].canceled == before[j].canceled,
{
}

/// Canceling a node with cause `e` cancels every node below it with `e`,
/// and a wait on any of them then ends with `Err(e)`.
pub proof fn lemma_cancel_reaches_below(before: Seq<ContextBody>, after: Seq<ContextBody>, id: int, e: ContextError, j: int)
    requires
        cancel_outcome(before, after, id, e),
        0 <= j < before.len(),
        descends(before, j, id),
    ensures
        after[j].canceled == Some(e),
        done_state(after, j) == Some(Err::<(), ContextError>(e)),
{
}

/// Canceling a node never touches its ancestors or its siblings: they lie
/// outside its subtree and keep their state.
pub proof fn lemma_cancel_spares_above_and_beside(before: Seq<ContextBody>, after: Seq<ContextBody>, id: int, e: ContextError, j: int)
    requires
        well_formed(before),
        0 <= id < before.len(),
        before[id].parent is Some,
        cancel_outcome(before, after, id, e),
        0 <= j < before.len(),
        j != id,
        descends(before, id, j) || before[j].parent == before[id].parent,
    ensures
        !descends(before, j, id),
        after[j].canceled == before[j].canceled,
{
    if descends(before, j, id) {
        if descends(before, id, j) {
            lemma_descends_ge(before, id, j);
            lemma_descends_ge(before, j, id);
        } else {
            lemma_descends_ge(before, before[j].parent->0 as int, id);
        }
    }
}

/// Canceling the same node a second time changes nothing: every node
/// keeps the state the first cancellation left, and the node itself stays
/// canceled.
pub proof fn lemma_cancel_twice(s0: Seq<ContextBody>, s1: Seq<ContextBody>, s2: Seq<ContextBody>, id: int, e1: ContextError, e2: ContextError)
    requires
        0 <= id < s0.len(),
        cancel_outcome(s0, s1, id, e1),
        cancel_outcome(s1, s2, id, e2),
    ensures
        s2.len() == s1.len(),
        forall|j: int| 0 <= j < s1.len() ==> #[trigger] s2[j].canceled == s1[j].canceled,
        s2[id].canceled == Some(ContextError::Canceled),
{
    assert forall|j: int| 0 <= j < s1.len() implies #[trigger] s2[j].canceled == s1[j].canceled by {
        lemma_descends_same_shape(s0, s1, j, id);
    }
    assert(descends(s0, id, id));
}

} // verus!
