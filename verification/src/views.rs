//! How the deep view of a vector follows the vector's own changes.

use vstd::prelude::*;

verus! {

/// Pushing an element pushes its view.
pub proof fn lemma_deep_view_push<T: DeepView>(before: Vec<T>, after: Vec<T>, last: T)
    requires
        after@ == before@.push(last),
    ensures
        after.deep_view() == before.deep_view().push(last.deep_view()),
{
    assert forall|i: int| 0 <= i < after@.len() implies after.deep_view()[i]
        == before.deep_view().push(last.deep_view())[i] by {
        if i < before@.len() {
            assert(after@[i] == before@[i]);
        }
    }
    assert(after.deep_view() =~= before.deep_view().push(last.deep_view()));
}

/// Replacing an element replaces its view.
pub proof fn lemma_deep_view_update<T: DeepView>(before: Vec<T>, after: Vec<T>, at: int, new: T)
    requires
        0 <= at < before@.len(),
        after@ == before@.update(at, new),
    ensures
        after.deep_view() == before.deep_view().update(at, new.deep_view()),
{
    assert forall|i: int| 0 <= i < after@.len() implies after.deep_view()[i]
        == before.deep_view().update(at, new.deep_view())[i] by {
        if i != at {
            assert(after@[i] == before@[i]);
        }
    }
    assert(after.deep_view() =~= before.deep_view().update(at, new.deep_view()));
}

/// Removing an element removes its view.
pub proof fn lemma_deep_view_remove<T: DeepView>(before: Vec<T>, after: Vec<T>, at: int)
    requires
        0 <= at < before@.len(),
        after@ == before@.remove(at),
    ensures
        after.deep_view() == before.deep_view().remove(at),
{
    assert forall|i: int| 0 <= i < after@.len() implies after.deep_view()[i]
        == before.deep_view().remove(at)[i] by {
        if i < at {
            assert(after@[i] == before@[i]);
        } else {
            assert(after@[i] == before@[i + 1]);
        }
    }
    assert(after.deep_view() =~= before.deep_view().remove(at));
}

} // verus!
