//! Properties of the fill pass's padding relation, each stated and proved
//! on its own: depth-uniform padding, prefix preservation, the zero shape
//! of appended rows, and idempotence of the synthesizer.

use crate::fill::extends;
use crate::fill::is_zero_constant;
use crate::fill::lemma_extends_index;
use crate::fill::padded_rel;
use crate::ir::TypeV;
use crate::ssa::ValueV;
use vstd::prelude::*;

verus! {

/// Every slice instance reached from `r` through slice elements has exactly
/// `max` rows, except an outermost one (`top` set), whose own row count is
/// left alone.  Nothing is claimed below a fixed-size array value, which the
/// synthesizer returns unchanged.
pub open spec fn nested_slices_at_max(
    vs: Seq<ValueV>,
    typ: TypeV,
    r: int,
    max: nat,
    top: bool,
) -> bool
    decreases typ,
{
    match typ {
        TypeV::Slice(elems) => {
            let w = elems.len() as int;
            &&& w > 0
            &&& match vs[r] {
                ValueV::Array { contents, .. } => {
                    &&& (!top ==> contents.len() == max * w)
                    &&& forall|k: int|
                        0 <= k < contents.len() ==> nested_slices_at_max(
                            vs,
                            elems[k % w],
                            #[trigger] contents[k] as int,
                            max,
                            false,
                        )
                },
                _ => false,
            }
        },
        _ => true,
    }
}

/// Depth-uniform padding: every slice instance a padded replacement holds
/// below its top level is brought to exactly the block-wide maximum row
/// count, so any two instances at a given nesting depth have identical
/// length after the pass.
pub proof fn lemma_depth_uniform_padding(
    vs: Seq<ValueV>,
    typ: TypeV,
    known: Option<int>,
    r: int,
    max: nat,
    is_parent: bool,
)
    requires
        padded_rel(vs, typ, known, r, max, is_parent),
        known is Some,
    ensures
        nested_slices_at_max(vs, typ, r, max, is_parent),
    decreases typ,
{
    lemma_padded_nested_at_max(vs, typ, known, r, max, is_parent);
}

/// Helper for [`lemma_depth_uniform_padding`], inductive over the type and
/// covering synthesized (no known value) positions as well.
proof fn lemma_padded_nested_at_max(
    vs: Seq<ValueV>,
    typ: TypeV,
    known: Option<int>,
    r: int,
    max: nat,
    is_parent: bool,
)
    requires
        padded_rel(vs, typ, known, r, max, is_parent),
        typ is Slice ==> known is Some || !is_parent,
    ensures
        nested_slices_at_max(vs, typ, r, max, is_parent),
    decreases typ,
{
    match typ {
        TypeV::Slice(elems) => {
            let w = elems.len() as int;
            match known {
                Some(v) => {
                    match vs[v] {
                        ValueV::Array { contents: old_c, .. } => {
                            match vs[r] {
                                ValueV::Array { contents: new_c, .. } => {
                                    assert forall|k: int|
                                        0 <= k < new_c.len() implies nested_slices_at_max(
                                        vs,
                                        elems[k % w],
                                        #[trigger] new_c[k] as int,
                                        max,
                                        false,
                                    ) by {
                                        lemma_padded_nested_at_max(
                                            vs,
                                            elems[k % w],
                                            if k < old_c.len() {
                                                Some(old_c[k] as int)
                                            } else {
                                                None
                                            },
                                            new_c[k] as int,
                                            max,
                                            false,
                                        );
                                    }
                                },
                                _ => {},
                            }
                        },
                        _ => {},
                    }
                },
                None => {
                    match vs[r] {
                        ValueV::Array { contents: new_c, .. } => {
                            assert forall|k: int| 0 <= k < new_c.len() implies nested_slices_at_max(
                                vs,
                                elems[k % w],
                                #[trigger] new_c[k] as int,
                                max,
                                false,
                            ) by {
                                lemma_padded_nested_at_max(
                                    vs,
                                    elems[k % w],
                                    None,
                                    new_c[k] as int,
                                    max,
                                    false,
                                );
                            }
                        },
                        _ => {},
                    }
                },
            }
        },
        _ => {},
    }
}

/// Every slice instance within the value has complete rows and at most
/// `max` of them (except an outermost one, whose own count is free): the
/// shape a block's values have once the recorded maxima cover them.
pub open spec fn rows_bounded(vs: Seq<ValueV>, typ: TypeV, id: int, max: nat, top: bool) -> bool
    decreases typ,
{
    match typ {
        TypeV::Slice(elems) => {
            let w = elems.len() as int;
            &&& w > 0
            &&& match vs[id] {
                ValueV::Array { contents, .. } => {
                    &&& contents.len() as int % w == 0
                    &&& (!top ==> contents.len() <= max * w)
                    &&& forall|k: int|
                        0 <= k < contents.len() ==> rows_bounded(
                            vs,
                            elems[k % w],
                            #[trigger] contents[k] as int,
                            max,
                            false,
                        )
                },
                _ => false,
            }
        },
        _ => true,
    }
}

/// The first elements of every rewritten sequence — its pre-pass content —
/// are carried over in value and order.
pub open spec fn prefix_preserved(vs: Seq<ValueV>, typ: TypeV, old_id: int, new_id: int) -> bool
    decreases typ,
{
    match typ {
        TypeV::Slice(elems) => {
            let w = elems.len() as int;
            match (vs[old_id], vs[new_id]) {
                (
                    ValueV::Array { contents: oc, .. },
                    ValueV::Array { contents: nc, .. },
                ) => {
                    &&& w > 0
                    &&& nc.len() >= oc.len()
                    &&& forall|k: int|
                        0 <= k < oc.len() ==> prefix_preserved(
                            vs,
                            elems[k % w],
                            #[trigger] oc[k] as int,
                            nc[k] as int,
                        )
                },
                _ => false,
            }
        },
        _ => new_id == old_id,
    }
}

/// Prefix preservation: on a value whose slices have complete rows within
/// the recorded maximum, the padded replacement keeps the whole original
/// prefix, scalar for scalar, and only ever appends.
pub proof fn lemma_prefix_preservation(
    vs: Seq<ValueV>,
    typ: TypeV,
    v: int,
    r: int,
    max: nat,
    is_parent: bool,
)
    requires
        padded_rel(vs, typ, Some(v), r, max, is_parent),
        rows_bounded(vs, typ, v, max, is_parent),
    ensures
        prefix_preserved(vs, typ, v, r),
    decreases typ,
{
    match typ {
        TypeV::Slice(elems) => {
            let w = elems.len() as int;
            match vs[v] {
                ValueV::Array { contents: oc, .. } => {
                    match vs[r] {
                        ValueV::Array { contents: nc, .. } => {
                            let rows: int = if is_parent {
                                oc.len() as int / w
                            } else {
                                max as int
                            };
                            assert(nc.len() >= oc.len()) by {
                                if is_parent {
                                    assert((oc.len() as int / w) * w == oc.len()) by (nonlinear_arith)
                                        requires
                                            w > 0,
                                            oc.len() as int % w == 0,
                                    ;
                                } else {
                                    assert(oc.len() <= max * w);
                                }
                            }
                            assert forall|k: int| 0 <= k < oc.len() implies prefix_preserved(
                                vs,
                                elems[k % w],
                                #[trigger] oc[k] as int,
                                nc[k] as int,
                            ) by {
                                assert(padded_rel(
                                    vs,
                                    elems[k % w],
                                    Some(oc[k] as int),
                                    nc[k] as int,
                                    max,
                                    false,
                                ));
                                lemma_prefix_preservation(
                                    vs,
                                    elems[k % w],
                                    oc[k] as int,
                                    nc[k] as int,
                                    max,
                                    false,
                                );
                            }
                        },
                        _ => {},
                    }
                },
                _ => {},
            }
        },
        _ => {},
    }
}

/// A zero-shaped value: a zero scalar, a zero-filled fixed-size array, or a
/// slice of exactly `max` zero-shaped rows — never anything undefined.
pub open spec fn zero_shaped(vs: Seq<ValueV>, typ: TypeV, id: int, max: nat) -> bool
    decreases typ,
{
    match typ {
        TypeV::Numeric => is_zero_constant(vs, id),
        TypeV::Array(elems, n) => {
            let w = elems.len() as int;
            &&& 0 <= id < vs.len()
            &&& match vs[id] {
                ValueV::Array { contents, typ: t } => {
                    &&& t == TypeV::Array(elems, n)
                    &&& contents.len() == n * w
                    &&& forall|k: int|
                        0 <= k < contents.len() ==> zero_shaped(
                            vs,
                            elems[k % w],
                            #[trigger] contents[k] as int,
                            max,
                        )
                },
                _ => false,
            }
        },
        TypeV::Slice(elems) => {
            let w = elems.len() as int;
            &&& w > 0
            &&& 0 <= id < vs.len()
            &&& match vs[id] {
                ValueV::Array { contents, typ: t } => {
                    &&& t == TypeV::Slice(elems)
                    &&& contents.len() == max * w
                    &&& forall|k: int|
                        0 <= k < contents.len() ==> zero_shaped(
                            vs,
                            elems[k % w],
                            #[trigger] contents[k] as int,
                            max,
                        )
                },
                _ => false,
            }
        },
        TypeV::Reference(_) => false,
        TypeV::Function => false,
    }
}

/// A value synthesized with no known data is zero-shaped, and conversely.
pub proof fn lemma_zero_shaped_is_synthesized(vs: Seq<ValueV>, typ: TypeV, id: int, max: nat)
    ensures
        zero_shaped(vs, typ, id, max) <==> padded_rel(vs, typ, None, id, max, false),
    decreases typ,
{
    match typ {
        TypeV::Array(elems, _) => {
            let w = elems.len() as int;
            if 0 <= id < vs.len() && w > 0 {
                match vs[id] {
                    ValueV::Array { contents, .. } => {
                        assert forall|k: int| 0 <= k < contents.len() implies (zero_shaped(
                            vs,
                            elems[k % w],
                            #[trigger] contents[k] as int,
                            max,
                        ) <==> padded_rel(
                            vs,
                            elems[k % w],
                            None,
                            contents[k] as int,
                            max,
                            false,
                        )) by {
                            lemma_zero_shaped_is_synthesized(
                                vs,
                                elems[k % w],
                                contents[k] as int,
                                max,
                            );
                        }
                    },
                    _ => {},
                }
            }
        },
        TypeV::Slice(elems) => {
            let w = elems.len() as int;
            if 0 <= id < vs.len() && w > 0 {
                match vs[id] {
                    ValueV::Array { contents, .. } => {
                        assert forall|k: int| 0 <= k < contents.len() implies (zero_shaped(
                            vs,
                            elems[k % w],
                            #[trigger] contents[k] as int,
                            max,
                        ) <==> padded_rel(
                            vs,
                            elems[k % w],
                            None,
                            contents[k] as int,
                            max,
                            false,
                        )) by {
                            lemma_zero_shaped_is_synthesized(
                                vs,
                                elems[k % w],
                                contents[k] as int,
                                max,
                            );
                        }
                    },
                    _ => {},
                }
            }
        },
        _ => {},
    }
}

/// Zero-padding shape: every element a padded replacement holds beyond the
/// original contents is zero-shaped, recursively mirroring its element
/// type.
pub proof fn lemma_zero_padding_shape(
    vs: Seq<ValueV>,
    typ: TypeV,
    elems: Seq<TypeV>,
    v: int,
    r: int,
    max: nat,
    is_parent: bool,
)
    requires
        typ == TypeV::Slice(elems),
        padded_rel(vs, typ, Some(v), r, max, is_parent),
    ensures
        vs[v] matches ValueV::Array { contents: oc, .. } ==> vs[r] matches ValueV::Array {
            contents: nc,
            ..
        } && forall|k: int|
            oc.len() <= k < nc.len() ==> zero_shaped(
                vs,
                elems[k % elems.len() as int],
                #[trigger] nc[k] as int,
                max,
            ),
{
    let w = elems.len() as int;
    match vs[v] {
        ValueV::Array { contents: oc, .. } => {
            match vs[r] {
                ValueV::Array { contents: nc, .. } => {
                    assert forall|k: int| oc.len() <= k < nc.len() implies zero_shaped(
                        vs,
                        elems[k % w],
                        #[trigger] nc[k] as int,
                        max,
                    ) by {
                        assert(padded_rel(vs, elems[k % w], None, nc[k] as int, max, false));
                        lemma_zero_shaped_is_synthesized(vs, elems[k % w], nc[k] as int, max);
                    }
                },
                _ => {},
            }
        },
        _ => {},
    }
}

/// Two values hold the same concrete data for a type: scalars and
/// fixed-size arrays are the very same value, slices hold elementwise
/// same-content rows.
pub open spec fn same_content(vs: Seq<ValueV>, typ: TypeV, a: int, b: int) -> bool
    decreases typ,
{
    match typ {
        TypeV::Slice(elems) => {
            let w = elems.len() as int;
            match (vs[a], vs[b]) {
                (
                    ValueV::Array { contents: ac, .. },
                    ValueV::Array { contents: bc, .. },
                ) => {
                    &&& w > 0
                    &&& ac.len() == bc.len()
                    &&& forall|k: int|
                        0 <= k < ac.len() ==> same_content(
                            vs,
                            elems[k % w],
                            #[trigger] ac[k] as int,
                            bc[k] as int,
                        )
                },
                _ => false,
            }
        },
        _ => a == b,
    }
}

/// Idempotence of the synthesizer: padding a value that is itself the
/// output of a padding run changes nothing further — the second output
/// holds exactly the same data as the first, length for length and scalar
/// for scalar.
pub proof fn lemma_padding_idempotent(
    vs1: Seq<ValueV>,
    vs2: Seq<ValueV>,
    typ: TypeV,
    known: Option<int>,
    r: int,
    r2: int,
    max: nat,
    is_parent: bool,
)
    requires
        padded_rel(vs1, typ, known, r, max, is_parent),
        extends(vs1, vs2),
        padded_rel(vs2, typ, Some(r), r2, max, is_parent),
    ensures
        same_content(vs2, typ, r, r2),
    decreases typ,
{
    lemma_extends_index(vs1, vs2);
    match typ {
        TypeV::Slice(elems) => {
            let w = elems.len() as int;
            match known {
                Some(v) => {
                    match vs1[v] {
                        ValueV::Array { contents: oc, .. } => {
                            lemma_same_content_slice(vs1, vs2, elems, oc, r, r2, max, is_parent);
                        },
                        _ => {},
                    }
                },
                None => {
                    match vs1[r] {
                        ValueV::Array { contents: rc, .. } => {
                            assert(rc.len() == max * w);
                            match vs2[r2] {
                                ValueV::Array { contents: r2c, .. } => {
                                    let rows: int = if is_parent {
                                        rc.len() as int / w
                                    } else {
                                        max as int
                                    };
                                    assert((max * w) as int / w == max as int)
                                        by (nonlinear_arith)
                                        requires
                                            w > 0,
                                    ;
                                    assert forall|k: int|
                                        0 <= k < rc.len() implies same_content(
                                        vs2,
                                        elems[k % w],
                                        #[trigger] rc[k] as int,
                                        r2c[k] as int,
                                    ) by {
                                        lemma_padding_idempotent(
                                            vs1,
                                            vs2,
                                            elems[k % w],
                                            None,
                                            rc[k] as int,
                                            r2c[k] as int,
                                            max,
                                            false,
                                        );
                                    }
                                },
                                _ => {},
                            }
                        },
                        _ => {},
                    }
                },
            }
        },
        _ => {},
    }
}

/// Slice case of [`lemma_padding_idempotent`] with a known first input.
proof fn lemma_same_content_slice(
    vs1: Seq<ValueV>,
    vs2: Seq<ValueV>,
    elems: Seq<TypeV>,
    oc: Seq<usize>,
    r: int,
    r2: int,
    max: nat,
    is_parent: bool,
)
    requires
        vs1.len() <= vs2.len(),
        forall|i: int| 0 <= i < vs1.len() ==> vs1[i] == vs2[i],
        extends(vs1, vs2),
        0 <= r < vs1.len(),
        elems.len() > 0,
        vs1[r] matches ValueV::Array { contents: rc, .. } && rc.len() == (if is_parent {
            (oc.len() as int / elems.len() as int)
        } else {
            max as int
        }) * elems.len() as int && forall|k: int|
            0 <= k < rc.len() ==> padded_rel(
                vs1,
                elems[k % elems.len() as int],
                if k < oc.len() {
                    Some(oc[k] as int)
                } else {
                    None
                },
                #[trigger] rc[k] as int,
                max,
                false,
            ),
        padded_rel(vs2, TypeV::Slice(elems), Some(r), r2, max, is_parent),
    ensures
        same_content(vs2, TypeV::Slice(elems), r, r2),
    decreases elems,
{
    let w = elems.len() as int;
    match vs1[r] {
        ValueV::Array { contents: rc, .. } => {
            match vs2[r2] {
                ValueV::Array { contents: r2c, .. } => {
                    let q: int = if is_parent {
                        oc.len() as int / w
                    } else {
                        max as int
                    };
                    assert(rc.len() == q * w);
                    assert(r2c.len() == rc.len()) by {
                        if is_parent {
                            assert((q * w) / w == q) by (nonlinear_arith)
                                requires
                                    w > 0,
                            ;
                            assert(rc.len() as int / w == q);
                        }
                    }
                    assert forall|k: int| 0 <= k < rc.len() implies same_content(
                        vs2,
                        elems[k % w],
                        #[trigger] rc[k] as int,
                        r2c[k] as int,
                    ) by {
                        assert(padded_rel(
                            vs2,
                            elems[k % w],
                            Some(rc[k] as int),
                            r2c[k] as int,
                            max,
                            false,
                        ));
                        lemma_padding_idempotent(
                            vs1,
                            vs2,
                            elems[k % w],
                            if k < oc.len() {
                                Some(oc[k] as int)
                            } else {
                                None
                            },
                            rc[k] as int,
                            r2c[k] as int,
                            max,
                            false,
                        );
                    }
                },
                _ => {},
            }
        },
        _ => {},
    }
}

} // verus!
