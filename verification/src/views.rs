//! Facts about the deep views of vectors that proofs across the crate use.
use vstd::prelude::*;

verus! {

/// The deep view of a vector has the vector's length, and each of its items is
/// the view of the item at that place.
pub proof fn lemma_deep_view_index<T: DeepView>(v: Vec<T>)
    ensures
        v.deep_view().len() == v.len(),
        forall|i: int| 0 <= i < v.len() ==> #[trigger] v.deep_view()[i] == v[i].deep_view(),
{
}

/// The deep view of a list of lists of booleans holds, at each place, the
/// booleans of the list at that place.
pub proof fn lemma_columns_deep_view(columns: Vec<Vec<bool>>)
    ensures
        columns.deep_view().len() == columns.len(),
        forall|i: int| 0 <= i < columns.len() ==> #[trigger] columns.deep_view()[i] == columns[i]@,
{
    assert forall|i: int| 0 <= i < columns.len() implies #[trigger] columns.deep_view()[i]
        == columns[i]@ by {
        assert(columns.deep_view()[i] =~= columns[i]@);
    }
}

/// Pushing an element onto a vector pushes its view onto the vector's view.
pub proof fn lemma_push_view<T: DeepView>(before: Vec<T>, after: Vec<T>, x: T)
    requires
        after@ == before@.push(x),
    ensures
        after.deep_view() == before.deep_view().push(x.deep_view()),
{
    assert(after.deep_view() =~= before.deep_view().push(x.deep_view()));
}

} // verus!
