//! The intermediate representation the passes work on: the closed type
//! algebra of the source language after monomorphisation, and its
//! specification-level mirror.

use crate::imvec::vector_entries;
use vstd::prelude::*;

verus! {

/// Static type of an SSA value.
///
/// Only `Numeric`, `Array` and `Slice` are meaningfully paddable;
/// `Reference` and `Function` occurring inside a sequence are unsupported
/// and make the fill pass abort.
pub enum IrType {
    /// A scalar.
    Numeric,
    /// A statically sized sequence: one row of element types, repeated a
    /// fixed number of times.
    Array(Vec<IrType>, usize),
    /// A dynamically sized sequence: concrete instances pair a runtime
    /// length with contents laid out row-major.
    Slice(Vec<IrType>),
    /// A reference to a value of the inner type.
    Reference(Box<IrType>),
    /// A function value.
    Function,
}

/// Specification-level mirror of [`IrType`], with mathematical sequences
/// for the element-type rows.
pub ghost enum TypeV {
    Numeric,
    Array(Seq<TypeV>, nat),
    Slice(Seq<TypeV>),
    Reference(Box<TypeV>),
    Function,
}

/// View of a whole element-type row.
pub open spec fn types_view(ts: Seq<IrType>) -> Seq<TypeV>
    decreases ts,
{
    if ts.len() == 0 {
        Seq::empty()
    } else {
        seq![ts[0]@] + types_view(ts.drop_first())
    }
}

impl View for IrType {
    type V = TypeV;

    open spec fn view(&self) -> TypeV
        decreases self,
    {
        match self {
            IrType::Numeric => TypeV::Numeric,
            IrType::Array(elems, n) => TypeV::Array(types_view(elems@), *n as nat),
            IrType::Slice(elems) => TypeV::Slice(types_view(elems@)),
            IrType::Reference(inner) => TypeV::Reference(Box::new((**inner)@)),
            IrType::Function => TypeV::Function,
        }
    }
}

/// `types_view` maps the sequence elementwise.
pub proof fn lemma_types_view(ts: Seq<IrType>)
    ensures
        types_view(ts).len() == ts.len(),
        forall|i: int| 0 <= i < ts.len() ==> types_view(ts)[i] == #[trigger] ts[i]@,
    decreases ts,
{
    if ts.len() > 0 {
        lemma_types_view(ts.drop_first());
        assert(types_view(ts) == seq![ts[0]@] + types_view(ts.drop_first()));
        assert(types_view(ts).len() == ts.len());
        assert forall|i: int| 0 <= i < ts.len() implies types_view(ts)[i] == #[trigger] ts[i]@ by {
            if i > 0 {
                assert(types_view(ts)[i] == types_view(ts.drop_first())[i - 1]);
                assert(ts.drop_first()[i - 1] == ts[i]);
            }
        }
    }
}

/// Number of sequence-type layers of a type: a slice contributes one level
/// plus the levels of its element types, an array or a reference only passes
/// the levels of what it holds through, and a scalar contributes none.
pub open spec fn nested_slice_depth(t: TypeV) -> nat
    decreases t,
{
    match t {
        TypeV::Numeric => 0,
        TypeV::Array(elems, _) => types_depth_sum(elems),
        TypeV::Slice(elems) => 1 + types_depth_sum(elems),
        TypeV::Reference(inner) => nested_slice_depth(*inner),
        TypeV::Function => 0,
    }
}

/// Sum of the nested slice depths of a row of element types.
pub open spec fn types_depth_sum(ts: Seq<TypeV>) -> nat
    decreases ts,
{
    if ts.len() == 0 {
        0
    } else {
        nested_slice_depth(ts[0]) + types_depth_sum(ts.drop_first())
    }
}

/// Whether a slice type occurs anywhere in the structure of a type.
pub open spec fn contains_slice(t: TypeV) -> bool
    decreases t,
{
    match t {
        TypeV::Numeric => false,
        TypeV::Array(elems, _) => types_contain_slice(elems),
        TypeV::Slice(_) => true,
        TypeV::Reference(inner) => contains_slice(*inner),
        TypeV::Function => false,
    }
}

/// Whether any type of a row contains a slice.
pub open spec fn types_contain_slice(ts: Seq<TypeV>) -> bool
    decreases ts,
{
    if ts.len() == 0 {
        false
    } else {
        contains_slice(ts[0]) || types_contain_slice(ts.drop_first())
    }
}

/// A type containing a slice has at least one sequence-type layer.
pub proof fn lemma_contains_slice_depth(t: TypeV)
    ensures
        contains_slice(t) ==> nested_slice_depth(t) >= 1,
    decreases t,
{
    match t {
        TypeV::Array(elems, _) => {
            lemma_types_contain_slice_depth(elems);
        },
        TypeV::Reference(inner) => {
            lemma_contains_slice_depth(*inner);
        },
        _ => {},
    }
}

/// A row containing a slice has a positive depth sum.
pub proof fn lemma_types_contain_slice_depth(ts: Seq<TypeV>)
    ensures
        types_contain_slice(ts) ==> types_depth_sum(ts) >= 1,
    decreases ts,
{
    if ts.len() > 0 {
        lemma_contains_slice_depth(ts[0]);
        lemma_types_contain_slice_depth(ts.drop_first());
    }
}

impl IrType {
    /// Structural copy of a type.
    pub fn deep_clone(&self) -> (r: IrType)
        ensures
            r@ == self@,
        decreases self,
    {
        match self {
            IrType::Numeric => IrType::Numeric,
            IrType::Array(elems, n) => {
                let cloned = clone_types(elems);
                IrType::Array(cloned, *n)
            },
            IrType::Slice(elems) => {
                let cloned = clone_types(elems);
                IrType::Slice(cloned)
            },
            IrType::Reference(inner) => IrType::Reference(Box::new(inner.deep_clone())),
            IrType::Function => IrType::Function,
        }
    }

    /// Whether a slice type occurs anywhere in the structure of this type.
    pub fn contains_slice_element(&self) -> (r: bool)
        ensures
            r == contains_slice(self@),
        decreases self,
    {
        match self {
            IrType::Numeric => false,
            IrType::Array(elems, _) => types_list_contains_slice(elems),
            IrType::Slice(_) => true,
            IrType::Reference(inner) => inner.contains_slice_element(),
            IrType::Function => false,
        }
    }
}

/// Structural copy of a row of element types.
fn clone_types(ts: &Vec<IrType>) -> (r: Vec<IrType>)
    ensures
        types_view(r@) == types_view(ts@),
    decreases ts,
{
    let mut out: Vec<IrType> = Vec::new();
    let mut i: usize = 0;
    while i < ts.len()
        invariant
            i <= ts@.len(),
            out@.len() == i,
            forall|j: int| 0 <= j < i ==> out@[j]@ == ts@[j]@,
        decreases ts@.len() - i,
    {
        let c = ts[i].deep_clone();
        out.push(c);
        i += 1;
    }
    proof {
        lemma_types_view(out@);
        lemma_types_view(ts@);
        assert forall|j: int| 0 <= j < ts@.len() implies types_view(out@)[j] == types_view(
            ts@,
        )[j] by {
            assert(out@[j]@ == ts@[j]@);
        }
        assert(types_view(out@) =~= types_view(ts@));
    }
    out
}

/// Whether any type of a row contains a slice.
pub fn types_list_contains_slice(ts: &Vec<IrType>) -> (r: bool)
    ensures
        r == types_contain_slice(types_view(ts@)),
    decreases ts,
{
    let mut i: usize = 0;
    let mut found = false;
    while i < ts.len()
        invariant
            i <= ts@.len(),
            found == exists|j: int| 0 <= j < i && contains_slice(#[trigger] ts@[j]@),
        decreases ts@.len() - i,
    {
        if ts[i].contains_slice_element() {
            found = true;
        }
        i += 1;
    }
    proof {
        lemma_types_view(ts@);
        lemma_types_contain_slice_exists(types_view(ts@));
        if found {
            let j = choose|j: int| 0 <= j < ts@.len() && contains_slice(#[trigger] ts@[j]@);
            assert(contains_slice(types_view(ts@)[j]));
        } else if types_contain_slice(types_view(ts@)) {
            let j = choose|j: int|
                0 <= j < types_view(ts@).len() && contains_slice(#[trigger] types_view(ts@)[j]);
            assert(contains_slice(ts@[j]@));
        }
    }
    found
}

/// `types_contain_slice` holds exactly when some type of the row contains a
/// slice.
pub proof fn lemma_types_contain_slice_exists(ts: Seq<TypeV>)
    ensures
        types_contain_slice(ts) <==> exists|j: int|
            0 <= j < ts.len() && contains_slice(#[trigger] ts[j]),
    decreases ts,
{
    if ts.len() > 0 {
        lemma_types_contain_slice_exists(ts.drop_first());
        if types_contain_slice(ts.drop_first()) {
            let j = choose|j: int|
                0 <= j < ts.drop_first().len() && contains_slice(#[trigger] ts.drop_first()[j]);
            assert(ts[j + 1] == ts.drop_first()[j]);
        }
        if exists|j: int| 0 <= j < ts.len() && contains_slice(#[trigger] ts[j]) {
            let j = choose|j: int| 0 <= j < ts.len() && contains_slice(#[trigger] ts[j]);
            if j > 0 {
                assert(ts.drop_first()[j - 1] == ts[j]);
            }
        }
    }
}

} // verus!
