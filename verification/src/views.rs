//! Small lemmas relating a vector's deep view to the deep views of its
//! elements after a push or an insert.

use vstd::prelude::*;

verus! {

/// Pushing an element pushes its deep view.
pub proof fn lemma_push_deep_view<T: DeepView>(pre: Vec<T>, post: Vec<T>, x: T)
    requires
        post@ == pre@.push(x),
    ensures
        post.deep_view() =~= pre.deep_view().push(x.deep_view()),
{
    assert forall|i: int| 0 <= i < post@.len() implies post.deep_view()[i]
        == pre.deep_view().push(x.deep_view())[i] by {
        if i < pre@.len() {
            assert(post@[i] == pre@[i]);
        } else {
            assert(post@[i] == x);
        }
    }
}

/// Inserting an element inserts its deep view at the same position.
pub proof fn lemma_insert_deep_view<T: DeepView>(pre: Vec<T>, post: Vec<T>, j: int, x: T)
    requires
        0 <= j <= pre@.len(),
        post@ == pre@.insert(j, x),
    ensures
        post.deep_view() =~= pre.deep_view().insert(j, x.deep_view()),
{
    assert forall|i: int| 0 <= i < post@.len() implies post.deep_view()[i]
        == pre.deep_view().insert(j, x.deep_view())[i] by {
        if i < j {
            assert(post@[i] == pre@[i]);
        } else if i == j {
            assert(post@[i] == x);
        } else {
            assert(post@[i] == pre@[i - 1]);
        }
    }
}

} // verus!
