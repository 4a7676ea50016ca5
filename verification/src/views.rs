//! How the deep view of a vector follows the vector.

use vstd::prelude::*;

verus! {

/// Pushing one item onto a vector pushes its deep view onto the vector's.
pub proof fn lemma_deep_view_push<T: DeepView>(before: Vec<T>, after: Vec<T>, item: T)
    requires
        after@ == before@.push(item),
    ensures
        after.deep_view() == before.deep_view().push(item.deep_view()),
{
    assert(after.deep_view() =~= before.deep_view().push(item.deep_view()));
}

/// Appending one vector to another appends their deep views.
pub proof fn lemma_deep_view_append<T: DeepView>(before: Vec<T>, after: Vec<T>, added: Vec<T>)
    requires
        after@ == before@ + added@,
    ensures
        after.deep_view() == before.deep_view() + added.deep_view(),
{
    assert(after.deep_view() =~= before.deep_view() + added.deep_view());
}

/// A vector without items has a deep view without items.
pub proof fn lemma_deep_view_empty<T: DeepView>(empty: Vec<T>)
    requires
        empty@.len() == 0,
    ensures
        empty.deep_view() == Seq::<T::V>::empty(),
{
    assert(empty.deep_view() =~= Seq::<T::V>::empty());
}

} // verus!
