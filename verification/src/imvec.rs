//! Trusted boundary to `im::Vector`, the persistent vector that stores the
//! contents of every concrete sequence value in the data flow graph.
//!
//! The contents of a vector are named by [`vector_entries`]; each wrapper
//! states over that name what the corresponding `im` operation does.

use vstd::prelude::*;

verus! {

#[verifier::external_type_specification]
#[verifier::external_body]
#[verifier::reject_recursive_types(A)]
pub struct ExImVector<A>(im::Vector<A>);

/// The elements held by an `im::Vector` of value ids, in order.
pub uninterp spec fn vector_entries(v: im::Vector<usize>) -> Seq<usize>;

/// Relies on `im::Vector::new`: constructs the empty vector.
#[verifier::external_body]
pub(crate) fn ivec_new() -> (r: im::Vector<usize>)
    ensures
        vector_entries(r) == Seq::<usize>::empty(),
{
    im::Vector::new()
}

/// Relies on `im::Vector::push_back`: appends one element at the back.
#[verifier::external_body]
pub(crate) fn ivec_push_back(v: &mut im::Vector<usize>, x: usize)
    ensures
        vector_entries(*final(v)) == vector_entries(*old(v)).push(x),
{
    v.push_back(x)
}

/// Relies on `im::Vector::len`: the number of elements held.
#[verifier::external_body]
pub(crate) fn ivec_len(v: &im::Vector<usize>) -> (r: usize)
    ensures
        r == vector_entries(*v).len(),
{
    v.len()
}

/// Relies on `im::Vector::get`: `Some` of the element exactly when the
/// index is within the length.
#[verifier::external_body]
pub(crate) fn ivec_get(v: &im::Vector<usize>, i: usize) -> (r: usize)
    requires
        i < vector_entries(*v).len(),
    ensures
        r == vector_entries(*v)[i as int],
{
    *v.get(i).expect("index within length")
}

/// Relies on `im::Vector::clone`: a persistent vector clone holds the same
/// elements.
#[verifier::external_body]
pub(crate) fn ivec_clone(v: &im::Vector<usize>) -> (r: im::Vector<usize>)
    ensures
        vector_entries(r) == vector_entries(*v),
{
    v.clone()
}

} // verus!
