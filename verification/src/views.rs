//! Views of nested vectors.

use vstd::prelude::*;

verus! {

/// The vectors held in `vs`, each as the sequence of its components.
pub open spec fn vectors_of(vs: Seq<Vec<u32>>) -> Seq<Seq<u32>> {
    Seq::new(vs.len(), |i: int| vs[i]@)
}

/// The deep view of a vector of vectors lists each inner vector's view.
pub proof fn lemma_deep_view(vs: Vec<Vec<u32>>)
    ensures
        vs.deep_view() == vectors_of(vs@),
{
    assert forall|i: int| 0 <= i < vs@.len() implies vs.deep_view()[i] == vectors_of(vs@)[i] by {
        assert(vs.deep_view()[i] == vs@[i].deep_view());
        assert(vs@[i].deep_view() =~= vs@[i]@);
    }
    assert(vs.deep_view() =~= vectors_of(vs@));
}

/// Pushing a vector pushes its view.
pub proof fn lemma_vectors_of_push(vs: Seq<Vec<u32>>, v: Vec<u32>)
    ensures
        vectors_of(vs.push(v)) == vectors_of(vs).push(v@),
{
    assert(vectors_of(vs.push(v)) =~= vectors_of(vs).push(v@));
}

/// Concatenating vectors concatenates their views.
pub proof fn lemma_vectors_of_add(a: Seq<Vec<u32>>, b: Seq<Vec<u32>>)
    ensures
        vectors_of(a + b) == vectors_of(a) + vectors_of(b),
{
    assert(vectors_of(a + b) =~= vectors_of(a) + vectors_of(b));
}

} // verus!
