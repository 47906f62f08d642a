//! The internal-slice data fill pass: specification of what a padded
//! replacement value is, and the type-directed synthesizer that builds one.
//!
//! A padded replacement preserves the original contents in place and appends
//! zero-shaped rows until every nested slice reaches the block-wide maximum
//! row count for its nesting depth.

use crate::imvec::ivec_clone;
use crate::imvec::ivec_get;
use crate::imvec::ivec_len;
use crate::imvec::ivec_new;
use crate::imvec::ivec_push_back;
use crate::imvec::vector_entries;
use crate::ir::lemma_types_view;
use crate::ir::types_view;
use crate::ir::IrType;
use crate::ir::TypeV;
use crate::ssa::value_wf;
use crate::ssa::values_wf;
use crate::ssa::DataFlowGraph;
use crate::ssa::Value;
use crate::ssa::ValueId;
use crate::ssa::ValueV;
use vstd::prelude::*;

verus! {

/// An internal invariant violation: compilation aborts, nothing is emitted.
#[derive(Clone, Copy, PartialEq, Eq, Structural, Debug)]
pub enum InternalError {
    /// A circuit-targeted function has more than one block.
    MultipleBlocks,
    /// A value recorded as a sequence is not backed by a concrete sequence.
    NotAnArrayConstant,
    /// The size map lacks an entry the resolver needs.
    MissingSliceSizes,
    /// Dummy data was requested for a reference or function type.
    UnsupportedDummyType,
    /// The resolver walked beyond the nesting depth of a type.
    DepthOutOfRange,
    /// A size computation exceeded the machine's integer bounds.
    SizeOverflow,
    /// A slice type carries an empty element-type row.
    EmptyElementRow,
}

/// The identity of a known value handed to the synthesizer, if any.
pub open spec fn opt_id(v: Option<ValueId>) -> Option<int> {
    match v {
        Some(id) => Some(id as int),
        None => None,
    }
}

/// The value is a numeric constant holding zero.
pub open spec fn is_zero_constant(vs: Seq<ValueV>, id: int) -> bool {
    &&& 0 <= id < vs.len()
    &&& vs[id] matches ValueV::NumericConstant { constant, typ } && constant == 0 && typ
        == TypeV::Numeric
}

/// What the dummy-value synthesizer produces: `r` is the padded replacement
/// for type `typ` of the optional known value `known`, with `max` the
/// block-wide maximum row count of nested slices.  For the outermost
/// sequence operand of an instruction (`is_parent` set) the target row count
/// of the top level is the known value's own, not `max`.
///
/// Contents are laid out row-major, so the element type at flat index `k`
/// is the one at column `k % width`.
pub open spec fn padded_rel(
    vs: Seq<ValueV>,
    typ: TypeV,
    known: Option<int>,
    r: int,
    max: nat,
    is_parent: bool,
) -> bool
    decreases typ,
{
    match typ {
        TypeV::Numeric => match known {
            Some(v) => r == v,
            None => is_zero_constant(vs, r),
        },
        TypeV::Array(elems, n) => match known {
            Some(v) => r == v,
            None => {
                let w = elems.len() as int;
                &&& 0 <= r < vs.len()
                &&& match vs[r] {
                    ValueV::Array { contents, typ: t } => {
                        &&& t == TypeV::Array(elems, n)
                        &&& contents.len() == n * w
                        &&& forall|k: int|
                            0 <= k < contents.len() ==> padded_rel(
                                vs,
                                elems[k % w],
                                None,
                                #[trigger] contents[k] as int,
                                max,
                                false,
                            )
                    },
                    _ => false,
                }
            },
        },
        TypeV::Slice(elems) => {
            let w = elems.len() as int;
            &&& w > 0
            &&& 0 <= r < vs.len()
            &&& match known {
                Some(v) => {
                    &&& 0 <= v < vs.len()
                    &&& match vs[v] {
                        ValueV::Array { contents: old_c, .. } => {
                            let rows: int = if is_parent {
                                old_c.len() as int / w
                            } else {
                                max as int
                            };
                            match vs[r] {
                                ValueV::Array { contents: new_c, typ: t } => {
                                    &&& t == TypeV::Slice(elems)
                                    &&& new_c.len() == rows * w
                                    &&& forall|k: int|
                                        0 <= k < new_c.len() ==> padded_rel(
                                            vs,
                                            elems[k % w],
                                            if k < old_c.len() {
                                                Some(old_c[k] as int)
                                            } else {
                                                None
                                            },
                                            #[trigger] new_c[k] as int,
                                            max,
                                            false,
                                        )
                                },
                                _ => false,
                            }
                        },
                        _ => false,
                    }
                },
                None => {
                    match vs[r] {
                        ValueV::Array { contents: new_c, typ: t } => {
                            &&& t == TypeV::Slice(elems)
                            &&& new_c.len() == max * w
                            &&& forall|k: int|
                                0 <= k < new_c.len() ==> padded_rel(
                                    vs,
                                    elems[k % w],
                                    None,
                                    #[trigger] new_c[k] as int,
                                    max,
                                    false,
                                )
                        },
                        _ => false,
                    }
                },
            }
        },
        TypeV::Reference(_) => false,
        TypeV::Function => false,
    }
}

/// The inputs on which the dummy-value synthesizer succeeds: no reference
/// or function type stands in a padded position, every known nested
/// sequence position is backed by a concrete sequence value, and no target
/// size exceeds the machine's integer bounds.
pub open spec fn synth_ok(
    vs: Seq<ValueV>,
    typ: TypeV,
    known: Option<int>,
    max: nat,
    is_parent: bool,
) -> bool
    decreases typ,
{
    match typ {
        TypeV::Numeric => true,
        TypeV::Array(elems, n) => {
            let w = elems.len() as int;
            match known {
                Some(_) => true,
                None => n * w <= usize::MAX && forall|k: int|
                    0 <= k < n * w ==> synth_ok(vs, #[trigger] elems[k % w], None, max, false),
            }
        },
        TypeV::Slice(elems) => {
            let w = elems.len() as int;
            &&& w > 0
            &&& match known {
                Some(v) => {
                    &&& 0 <= v < vs.len()
                    &&& match vs[v] {
                        ValueV::Array { contents: oc, .. } => {
                            let rows: int = if is_parent {
                                oc.len() as int / w
                            } else {
                                max as int
                            };
                            &&& rows * w <= usize::MAX
                            &&& forall|k: int|
                                0 <= k < rows * w ==> synth_ok(
                                    vs,
                                    #[trigger] elems[k % w],
                                    if k < oc.len() {
                                        Some(oc[k] as int)
                                    } else {
                                        None
                                    },
                                    max,
                                    false,
                                )
                        },
                        _ => false,
                    }
                },
                None => max * w <= usize::MAX && forall|k: int|
                    0 <= k < max * w ==> synth_ok(vs, #[trigger] elems[k % w], None, max, false),
            }
        },
        TypeV::Reference(_) => false,
        TypeV::Function => false,
    }
}

/// Success of the synthesizer does not depend on values defined after the
/// inputs it reads: growing the store changes nothing.
pub proof fn lemma_synth_ok_extend(
    vs1: Seq<ValueV>,
    vs2: Seq<ValueV>,
    typ: TypeV,
    known: Option<int>,
    max: nat,
    is_parent: bool,
)
    requires
        values_wf(vs1),
        extends(vs1, vs2),
        known matches Some(v) ==> 0 <= v < vs1.len(),
    ensures
        synth_ok(vs1, typ, known, max, is_parent) <==> synth_ok(vs2, typ, known, max, is_parent),
    decreases typ,
{
    lemma_extends_index(vs1, vs2);
    match typ {
        TypeV::Array(elems, n) => {
            let w = elems.len() as int;
            if known is None {
                assert forall|k: int| 0 <= k < n * w implies (synth_ok(
                    vs1,
                    #[trigger] elems[k % w],
                    None,
                    max,
                    false,
                ) <==> synth_ok(vs2, elems[k % w], None, max, false)) by {
                    lemma_synth_ok_extend(vs1, vs2, elems[k % w], None, max, false);
                }
            }
        },
        TypeV::Slice(elems) => {
            let w = elems.len() as int;
            match known {
                Some(v) => {
                    if 0 <= v < vs1.len() {
                        match vs1[v] {
                            ValueV::Array { contents: oc, .. } => {
                                let rows: int = if is_parent {
                                    oc.len() as int / w
                                } else {
                                    max as int
                                };
                                assert forall|k: int| 0 <= k < rows * w implies (synth_ok(
                                    vs1,
                                    #[trigger] elems[k % w],
                                    if k < oc.len() {
                                        Some(oc[k] as int)
                                    } else {
                                        None
                                    },
                                    max,
                                    false,
                                ) <==> synth_ok(
                                    vs2,
                                    elems[k % w],
                                    if k < oc.len() {
                                        Some(oc[k] as int)
                                    } else {
                                        None
                                    },
                                    max,
                                    false,
                                )) by {
                                    if k < oc.len() {
                                        assert(value_wf(vs1, v));
                                        assert(oc[k] < v);
                                    }
                                    lemma_synth_ok_extend(
                                        vs1,
                                        vs2,
                                        elems[k % w],
                                        if k < oc.len() {
                                            Some(oc[k] as int)
                                        } else {
                                            None
                                        },
                                        max,
                                        false,
                                    );
                                }
                            },
                            _ => {},
                        }
                    }
                },
                None => {
                    assert forall|k: int| 0 <= k < max * w implies (synth_ok(
                        vs1,
                        #[trigger] elems[k % w],
                        None,
                        max,
                        false,
                    ) <==> synth_ok(vs2, elems[k % w], None, max, false)) by {
                        lemma_synth_ok_extend(vs1, vs2, elems[k % w], None, max, false);
                    }
                },
            }
        },
        _ => {},
    }
}

/// One value store extends another: the earlier values stand unchanged.
pub open spec fn extends(vs1: Seq<ValueV>, vs2: Seq<ValueV>) -> bool {
    &&& vs1.len() <= vs2.len()
    &&& vs2.subrange(0, vs1.len() as int) == vs1
}

/// Extension keeps every earlier value readable unchanged.
pub proof fn lemma_extends_index(vs1: Seq<ValueV>, vs2: Seq<ValueV>)
    requires
        extends(vs1, vs2),
    ensures
        forall|i: int| 0 <= i < vs1.len() ==> vs1[i] == vs2[i],
{
    assert forall|i: int| 0 <= i < vs1.len() implies vs1[i] == vs2[i] by {
        assert(vs2.subrange(0, vs1.len() as int)[i] == vs2[i]);
    }
}

/// Extension is transitive.
pub proof fn lemma_extends_trans(vs1: Seq<ValueV>, vs2: Seq<ValueV>, vs3: Seq<ValueV>)
    requires
        extends(vs1, vs2),
        extends(vs2, vs3),
    ensures
        extends(vs1, vs3),
{
    lemma_extends_index(vs1, vs2);
    lemma_extends_index(vs2, vs3);
    assert(vs3.subrange(0, vs1.len() as int) =~= vs1);
}

/// A padded replacement stays one when the value store grows: the relation
/// only reads values defined before the extension point.
pub proof fn lemma_padded_rel_extend(
    vs1: Seq<ValueV>,
    vs2: Seq<ValueV>,
    typ: TypeV,
    known: Option<int>,
    r: int,
    max: nat,
    is_parent: bool,
)
    requires
        padded_rel(vs1, typ, known, r, max, is_parent),
        extends(vs1, vs2),
    ensures
        padded_rel(vs2, typ, known, r, max, is_parent),
    decreases typ,
{
    lemma_extends_index(vs1, vs2);
    match typ {
        TypeV::Numeric => {},
        TypeV::Array(elems, n) => {
            if known is None {
                let w = elems.len() as int;
                match vs1[r] {
                    ValueV::Array { contents, .. } => {
                        assert forall|k: int| 0 <= k < contents.len() implies padded_rel(
                            vs2,
                            elems[k % w],
                            None,
                            #[trigger] contents[k] as int,
                            max,
                            false,
                        ) by {
                            lemma_padded_rel_extend(
                                vs1,
                                vs2,
                                elems[k % w],
                                None,
                                contents[k] as int,
                                max,
                                false,
                            );
                        }
                    },
                    _ => {},
                }
            }
        },
        TypeV::Slice(elems) => {
            let w = elems.len() as int;
            match known {
                Some(v) => {
                    match vs1[v] {
                        ValueV::Array { contents: old_c, .. } => {
                            match vs1[r] {
                                ValueV::Array { contents: new_c, .. } => {
                                    assert forall|k: int| 0 <= k < new_c.len() implies padded_rel(
                                        vs2,
                                        elems[k % w],
                                        if k < old_c.len() {
                                            Some(old_c[k] as int)
                                        } else {
                                            None
                                        },
                                        #[trigger] new_c[k] as int,
                                        max,
                                        false,
                                    ) by {
                                        lemma_padded_rel_extend(
                                            vs1,
                                            vs2,
                                            elems[k % w],
                                            if k < old_c.len() {
                                                Some(old_c[k] as int)
                                            } else {
                                                None
                                            },
                                            new_c[k] as int,
                                            max,
                                            false,
                                        );
                                    }
                                },
                                _ => {},
                            }
                        },
                        _ => {},
                    }
                },
                None => {
                    match vs1[r] {
                        ValueV::Array { contents: new_c, .. } => {
                            assert forall|k: int| 0 <= k < new_c.len() implies padded_rel(
                                vs2,
                                elems[k % w],
                                None,
                                #[trigger] new_c[k] as int,
                                max,
                                false,
                            ) by {
                                lemma_padded_rel_extend(
                                    vs1,
                                    vs2,
                                    elems[k % w],
                                    None,
                                    new_c[k] as int,
                                    max,
                                    false,
                                );
                            }
                        },
                        _ => {},
                    }
                },
            }
        },
        TypeV::Reference(_) => {},
        TypeV::Function => {},
    }
}

/// Extension is reflexive.
pub proof fn lemma_extends_refl(vs: Seq<ValueV>)
    ensures
        extends(vs, vs),
{
    assert(vs.subrange(0, vs.len() as int) =~= vs);
}

/// Pushing a well-formed value keeps the store well formed and extends it.
pub proof fn lemma_values_wf_push(vs: Seq<ValueV>, v: ValueV)
    requires
        values_wf(vs),
        v matches ValueV::Array { contents, .. } ==> forall|k: int|
            0 <= k < contents.len() ==> (#[trigger] contents[k]) < vs.len(),
    ensures
        values_wf(vs.push(v)),
        extends(vs, vs.push(v)),
{
    let vs2 = vs.push(v);
    assert(vs2.subrange(0, vs.len() as int) =~= vs);
    assert forall|i: int| 0 <= i < vs2.len() implies value_wf(vs2, i) by {
        if i < vs.len() {
            assert(vs2[i] == vs[i]);
            assert(value_wf(vs, i));
        } else {
            assert(vs2[i] == v);
        }
    }
}

/// The element the synthesizer is to preserve at flat index `k`, if the
/// known contents reach that far.
pub open spec fn src_elem(src: Option<im::Vector<usize>>, k: int) -> Option<int> {
    match src {
        Some(c) => if k < vector_entries(c).len() {
            Some(vector_entries(c)[k] as int)
        } else {
            None
        },
        None => None,
    }
}

/// Builds the contents of one padded sequence: `target` elements, each the
/// padded replacement of the corresponding known element where the known
/// contents reach, and zero-shaped beyond them.
fn synth_contents(
    dfg: &mut DataFlowGraph,
    max: usize,
    elems: &Vec<IrType>,
    src: &Option<im::Vector<usize>>,
    target: usize,
) -> (r: Result<im::Vector<usize>, InternalError>)
    requires
        values_wf(old(dfg)@),
        target > 0 ==> elems@.len() > 0,
        (*src) matches Some(c) ==> forall|k: int|
            0 <= k < vector_entries(c).len() ==> (#[trigger] vector_entries(c)[k])
                < old(dfg)@.len(),
    ensures
        r matches Err(e) ==> e != InternalError::MultipleBlocks,
        extends(old(dfg)@, final(dfg)@),
        values_wf(final(dfg)@),
        r is Ok <==> forall|m: int|
            0 <= m < target ==> synth_ok(
                old(dfg)@,
                #[trigger] types_view(elems@)[m % types_view(elems@).len() as int],
                src_elem(*src, m),
                max as nat,
                false,
            ),
        r matches Ok(out) ==> {
            let es = types_view(elems@);
            let entries = vector_entries(out);
            &&& entries.len() == target
            &&& forall|m: int| 0 <= m < target ==> (#[trigger] entries[m]) < final(dfg)@.len()
            &&& forall|m: int|
                0 <= m < target ==> padded_rel(
                    final(dfg)@,
                    es[m % es.len() as int],
                    src_elem(*src, m),
                    #[trigger] entries[m] as int,
                    max as nat,
                    false,
                )
        },
    decreases elems,
{
    let ghost pre = old(dfg)@;
    let mut out = ivec_new();
    let mut k: usize = 0;
    proof {
        lemma_extends_refl(pre);
        lemma_types_view(elems@);
    }
    while k < target
        invariant
            pre == old(dfg)@,
            values_wf(pre),
            values_wf(dfg@),
            extends(pre, dfg@),
            target > 0 ==> elems@.len() > 0,
            types_view(elems@).len() == elems@.len(),
            forall|j: int| 0 <= j < elems@.len() ==> types_view(elems@)[j] == #[trigger] elems@[j]@,
            (*src) matches Some(c) ==> forall|m: int|
                0 <= m < vector_entries(c).len() ==> (#[trigger] vector_entries(c)[m]) < pre.len(),
            k <= target,
            vector_entries(out).len() == k,
            forall|m: int| 0 <= m < k ==> (#[trigger] vector_entries(out)[m]) < dfg@.len(),
            forall|m: int|
                0 <= m < k ==> padded_rel(
                    dfg@,
                    types_view(elems@)[m % elems@.len() as int],
                    src_elem(*src, m),
                    #[trigger] vector_entries(out)[m] as int,
                    max as nat,
                    false,
                ),
            forall|m: int|
                0 <= m < k ==> synth_ok(
                    pre,
                    #[trigger] types_view(elems@)[m % elems@.len() as int],
                    src_elem(*src, m),
                    max as nat,
                    false,
                ),
        decreases target - k,
    {
        let maybe: Option<ValueId> = match src {
            Some(c) => {
                if k < ivec_len(c) {
                    Some(ivec_get(c, k))
                } else {
                    None
                }
            },
            None => None,
        };
        let w = elems.len();
        let ghost prev = dfg@;
        let child = match attach_slice_dummies(dfg, max, &elems[k % w], maybe, false) {
            Ok(c) => c,
            Err(e) => {
                proof {
                    lemma_extends_trans(pre, prev, dfg@);
                    lemma_synth_ok_extend(
                        pre,
                        prev,
                        types_view(elems@)[k as int % elems@.len() as int],
                        opt_id(maybe),
                        max as nat,
                        false,
                    );
                    assert(!synth_ok(
                        pre,
                        types_view(elems@)[k as int % elems@.len() as int],
                        src_elem(*src, k as int),
                        max as nat,
                        false,
                    ));
                }
                return Err(e);
            },
        };
        proof {
            lemma_extends_trans(pre, prev, dfg@);
            lemma_synth_ok_extend(
                pre,
                prev,
                types_view(elems@)[k as int % elems@.len() as int],
                opt_id(maybe),
                max as nat,
                false,
            );
            assert(synth_ok(
                pre,
                types_view(elems@)[k as int % elems@.len() as int],
                src_elem(*src, k as int),
                max as nat,
                false,
            ));
            lemma_extends_index(prev, dfg@);
            assert forall|m: int| 0 <= m < k implies padded_rel(
                dfg@,
                types_view(elems@)[m % elems@.len() as int],
                src_elem(*src, m),
                #[trigger] vector_entries(out)[m] as int,
                max as nat,
                false,
            ) by {
                lemma_padded_rel_extend(
                    prev,
                    dfg@,
                    types_view(elems@)[m % elems@.len() as int],
                    src_elem(*src, m),
                    vector_entries(out)[m] as int,
                    max as nat,
                    false,
                );
            }
            assert(types_view(elems@)[k as int % elems@.len() as int] == elems@[k as int
                % elems@.len() as int]@);
        }
        ivec_push_back(&mut out, child);
        k += 1;
    }
    Ok(out)
}

/// The dummy-value synthesizer: produces a value of type `typ` padded to
/// the required lengths, preserving the known value's data where one is
/// supplied and filling everything else with zero-shaped rows.
///
/// `is_parent_slice` marks the outermost sequence operand of the
/// instruction being rewritten, whose own row count is already correct and
/// is kept; every deeper slice is brought to `max` rows.
pub fn attach_slice_dummies(
    dfg: &mut DataFlowGraph,
    max: usize,
    typ: &IrType,
    value: Option<ValueId>,
    is_parent_slice: bool,
) -> (r: Result<ValueId, InternalError>)
    requires
        values_wf(old(dfg)@),
        value matches Some(v) ==> v < old(dfg)@.len(),
    ensures
        r matches Err(e) ==> e != InternalError::MultipleBlocks,
        extends(old(dfg)@, final(dfg)@),
        values_wf(final(dfg)@),
        r is Ok <==> synth_ok(old(dfg)@, typ@, opt_id(value), max as nat, is_parent_slice),
        r matches Ok(id) ==> id < final(dfg)@.len() && padded_rel(
            final(dfg)@,
            typ@,
            opt_id(value),
            id as int,
            max as nat,
            is_parent_slice,
        ),
    decreases typ,
{
    proof {
        lemma_extends_refl(old(dfg)@);
    }
    match typ {
        IrType::Numeric => {
            match value {
                Some(v) => Ok(v),
                None => {
                    let id = dfg.make_constant(0);
                    proof {
                        lemma_values_wf_push(
                            old(dfg)@,
                            ValueV::NumericConstant { constant: 0, typ: TypeV::Numeric },
                        );
                    }
                    Ok(id)
                },
            }
        },
        IrType::Array(elems, n) => {
            match value {
                Some(v) => Ok(v),
                None => {
                    let w = elems.len();
                    let target = match n.checked_mul(w) {
                        Some(t) => t,
                        None => {
                            proof {
                                lemma_types_view(elems@);
                            }
                            return Err(InternalError::SizeOverflow);
                        },
                    };
                    proof {
                        if target > 0 && w == 0 {
                            assert((*n as int) * (w as int) == 0) by (nonlinear_arith)
                                requires w == 0;
                        }
                    }
                    let ghost prev = dfg@;
                    let contents = match synth_contents(dfg, max, elems, &None, target) {
                        Ok(c) => c,
                        Err(e) => {
                            proof {
                                lemma_types_view(elems@);
                            }
                            return Err(e);
                        },
                    };
                    let ghost mid = dfg@;
                    let id = dfg.make_array(contents, typ.deep_clone());
                    proof {
                        lemma_types_view(elems@);
                        lemma_values_wf_push(
                            mid,
                            ValueV::Array { contents: vector_entries(contents), typ: typ@ },
                        );
                        lemma_extends_trans(prev, mid, dfg@);
                        assert forall|k: int| 0 <= k < vector_entries(contents).len()
                            implies padded_rel(
                            dfg@,
                            types_view(elems@)[k % elems@.len() as int],
                            None,
                            #[trigger] vector_entries(contents)[k] as int,
                            max as nat,
                            false,
                        ) by {
                            lemma_padded_rel_extend(
                                mid,
                                dfg@,
                                types_view(elems@)[k % elems@.len() as int],
                                None,
                                vector_entries(contents)[k] as int,
                                max as nat,
                                false,
                            );
                        }
                    }
                    Ok(id)
                },
            }
        },
        IrType::Slice(elems) => {
            let w = elems.len();
            if w == 0 {
                return Err(InternalError::EmptyElementRow);
            }
            match value {
                Some(vid) => {
                    proof {
                        assert(dfg@.len() == dfg.values@.len());
                    }
                    let old_c = match &dfg.values[vid] {
                        Value::Array { contents, .. } => {
                            let c = ivec_clone(contents);
                            proof {
                                assert(dfg@[vid as int] == dfg.values@[vid as int]@);
                                assert(dfg@[vid as int] matches ValueV::Array {
                                    contents: cc,
                                    ..
                                } && cc == vector_entries(c));
                            }
                            c
                        },
                        _ => {
                            return Err(InternalError::NotAnArrayConstant);
                        },
                    };
                    let old_len = ivec_len(&old_c);
                    let rows = if is_parent_slice {
                        old_len / w
                    } else {
                        max
                    };
                    let target = match rows.checked_mul(w) {
                        Some(t) => t,
                        None => {
                            proof {
                                lemma_types_view(elems@);
                            }
                            return Err(InternalError::SizeOverflow);
                        },
                    };
                    proof {
                        assert(value_wf(old(dfg)@, vid as int));
                        assert forall|k: int| 0 <= k < vector_entries(old_c).len() implies (
                        #[trigger] vector_entries(old_c)[k]) < old(dfg)@.len() by {
                            assert(vector_entries(old_c)[k] < vid as int);
                        }
                    }
                    let ghost prev = dfg@;
                    let src = Some(old_c);
                    let contents = match synth_contents(dfg, max, elems, &src, target) {
                        Ok(c) => c,
                        Err(e) => {
                            proof {
                                lemma_types_view(elems@);
                            }
                            return Err(e);
                        },
                    };
                    let ghost mid = dfg@;
                    let id = dfg.make_array(contents, typ.deep_clone());
                    proof {
                        lemma_types_view(elems@);
                        lemma_values_wf_push(
                            mid,
                            ValueV::Array { contents: vector_entries(contents), typ: typ@ },
                        );
                        lemma_extends_trans(prev, mid, dfg@);
                        lemma_extends_index(prev, dfg@);
                        assert forall|k: int| 0 <= k < vector_entries(contents).len()
                            implies padded_rel(
                            dfg@,
                            types_view(elems@)[k % elems@.len() as int],
                            src_elem(src, k),
                            #[trigger] vector_entries(contents)[k] as int,
                            max as nat,
                            false,
                        ) by {
                            lemma_padded_rel_extend(
                                mid,
                                dfg@,
                                types_view(elems@)[k % elems@.len() as int],
                                src_elem(src, k),
                                vector_entries(contents)[k] as int,
                                max as nat,
                                false,
                            );
                        }
                    }
                    Ok(id)
                },
                None => {
                    let target = match max.checked_mul(w) {
                        Some(t) => t,
                        None => {
                            proof {
                                lemma_types_view(elems@);
                            }
                            return Err(InternalError::SizeOverflow);
                        },
                    };
                    let ghost prev = dfg@;
                    let contents = match synth_contents(dfg, max, elems, &None, target) {
                        Ok(c) => c,
                        Err(e) => {
                            proof {
                                lemma_types_view(elems@);
                            }
                            return Err(e);
                        },
                    };
                    let ghost mid = dfg@;
                    let id = dfg.make_array(contents, typ.deep_clone());
                    proof {
                        lemma_types_view(elems@);
                        lemma_values_wf_push(
                            mid,
                            ValueV::Array { contents: vector_entries(contents), typ: typ@ },
                        );
                        lemma_extends_trans(prev, mid, dfg@);
                        assert forall|k: int| 0 <= k < vector_entries(contents).len()
                            implies padded_rel(
                            dfg@,
                            types_view(elems@)[k % elems@.len() as int],
                            None,
                            #[trigger] vector_entries(contents)[k] as int,
                            max as nat,
                            false,
                        ) by {
                            lemma_padded_rel_extend(
                                mid,
                                dfg@,
                                types_view(elems@)[k % elems@.len() as int],
                                None,
                                vector_entries(contents)[k] as int,
                                max as nat,
                                false,
                            );
                        }
                    }
                    Ok(id)
                },
            }
        },
        IrType::Reference(_) => Err(InternalError::UnsupportedDummyType),
        IrType::Function => Err(InternalError::UnsupportedDummyType),
    }
}

} // verus!
