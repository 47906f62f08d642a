//! Driver of the internal-slice data fill pass: resolves the block-wide
//! maximum sizes from the tracker's maps and replays every instruction with
//! padded sequence operands substituted in.

use crate::fill::attach_slice_dummies;
use crate::fill::extends;
use crate::fill::lemma_extends_index;
use crate::fill::lemma_extends_refl;
use crate::fill::lemma_extends_trans;
use crate::fill::lemma_padded_rel_extend;
use crate::fill::padded_rel;
use crate::fill::InternalError;
use crate::ir::nested_slice_depth;
use crate::ir::types_depth_sum;
use crate::ir::types_view;
use crate::ir::IrType;
use crate::ssa::entries_view;
use crate::ssa::entry_wf;
use crate::ssa::ids_contain;
use crate::ssa::instr_operands;
use crate::ssa::value_typ;
use crate::ssa::values_wf;
use crate::ssa::Block;
use crate::ssa::DataFlowGraph;
use crate::ssa::EntryV;
use crate::ssa::Function;
use crate::ssa::Instruction;
use crate::ssa::InstructionEntry;
use crate::ssa::InstructionV;
use crate::ssa::RuntimeType;
use crate::ssa::Ssa;
use crate::ssa::ValueId;
use crate::ssa::ValueV;
use crate::tracker::forward_map_wf;
use crate::tracker::sizes_wf;
use crate::tracker::SliceCapacityTracker;
use crate::tracker::SliceSizes;
use std::collections::HashMap;
use vstd::prelude::*;

verus! {

broadcast use vstd::std_specs::hash::group_hash_axioms;

/// Computes the nesting depth of a type, or `None` when the sum exceeds the
/// machine's integer bounds.
pub fn compute_nested_slice_depth(typ: &IrType) -> (r: Option<usize>)
    ensures
        match r {
            Some(d) => d == nested_slice_depth(typ@),
            None => nested_slice_depth(typ@) > usize::MAX,
        },
    decreases typ,
{
    match typ {
        IrType::Numeric => Some(0),
        IrType::Function => Some(0),
        IrType::Reference(inner) => compute_nested_slice_depth(inner),
        IrType::Array(elems, _) => depth_sum_of(elems),
        IrType::Slice(elems) => {
            match depth_sum_of(elems) {
                Some(d) => d.checked_add(1),
                None => None,
            }
        },
    }
}

/// Sum of the nesting depths of a row of element types, or `None` on
/// overflow.
fn depth_sum_of(elems: &Vec<IrType>) -> (r: Option<usize>)
    ensures
        match r {
            Some(d) => d == types_depth_sum(types_view(elems@)),
            None => types_depth_sum(types_view(elems@)) > usize::MAX,
        },
    decreases elems,
{
    let mut total: usize = 0;
    let mut i: usize = 0;
    proof {
        crate::ir::lemma_types_view(elems@);
        assert(types_view(elems@).skip(0) =~= types_view(elems@));
    }
    while i < elems.len()
        invariant
            i <= elems@.len(),
            types_view(elems@).len() == elems@.len(),
            forall|j: int| 0 <= j < elems@.len() ==> types_view(elems@)[j] == #[trigger] elems@[j]@,
            total + types_depth_sum(types_view(elems@).skip(i as int)) == types_depth_sum(
                types_view(elems@),
            ),
        decreases elems@.len() - i,
    {
        proof {
            lemma_depth_sum_skip(types_view(elems@), i as int);
        }
        let d = match compute_nested_slice_depth(&elems[i]) {
            Some(d) => d,
            None => {
                proof {
                    lemma_depth_sum_skip_bound(types_view(elems@), i as int);
                }
                return None;
            },
        };
        let new_total = match total.checked_add(d) {
            Some(t) => t,
            None => {
                proof {
                    lemma_depth_sum_skip_bound(types_view(elems@), i as int);
                }
                return None;
            },
        };
        total = new_total;
        i += 1;
    }
    proof {
        assert(types_view(elems@).skip(i as int) =~= Seq::<crate::ir::TypeV>::empty());
    }
    Some(total)
}

/// Unfolds one step of the depth sum of a suffix.
proof fn lemma_depth_sum_skip(ts: Seq<crate::ir::TypeV>, i: int)
    requires
        0 <= i < ts.len(),
    ensures
        types_depth_sum(ts.skip(i)) == nested_slice_depth(ts[i]) + types_depth_sum(ts.skip(i + 1)),
{
    let s = ts.skip(i);
    assert(s.len() > 0);
    assert(s[0] == ts[i]);
    assert(s.drop_first() =~= ts.skip(i + 1));
}

/// The depth sum of a row is at least that of any element of its suffix.
proof fn lemma_depth_sum_skip_bound(ts: Seq<crate::ir::TypeV>, i: int)
    requires
        0 <= i < ts.len(),
    ensures
        types_depth_sum(ts.skip(i)) >= nested_slice_depth(ts[i]),
{
    lemma_depth_sum_skip(ts, i);
}

/// Resolution of a sequence id through the forward map: the fixed point of
/// following each original to the identity it became.  An id the map does
/// not mention resolves to itself.
pub open spec fn resolve_spec(m: Map<ValueId, ValueId>, id: ValueId, n: nat) -> ValueId
    decreases n - id,
{
    if m.contains_key(id) && id < m[id] && m[id] < n {
        resolve_spec(m, m[id], n)
    } else {
        id
    }
}

/// Pass-local state of one block's rewrite.
pub struct Context {
    /// Maps an original sequence id to the id it became (forward map).
    pub mapped_slice_values: HashMap<ValueId, ValueId>,
    /// Maps a derived id back to the id it came from (backward map).
    pub slice_parents: HashMap<ValueId, ValueId>,
    /// The tracked sequence constants the rewrite replaces.
    pub slice_values: Vec<ValueId>,
    /// The block-wide maximum row count of nested slices, set once the
    /// collection scan is folded.
    pub nested_max: Option<usize>,
}

impl Context {
    /// Resolves a sequence id to its current identity.
    pub fn resolve_slice_value(&self, id: ValueId, Ghost(n): Ghost<int>) -> (r: ValueId)
        requires
            forward_map_wf(self.mapped_slice_values@, n),
            id < n,
        ensures
            r == resolve_spec(self.mapped_slice_values@, id, n as nat),
            r < n,
    {
        let mut cur = id;
        loop
            invariant
                forward_map_wf(self.mapped_slice_values@, n),
                cur < n,
                resolve_spec(self.mapped_slice_values@, cur, n as nat) == resolve_spec(
                    self.mapped_slice_values@,
                    id,
                    n as nat,
                ),
            decreases n - cur,
        {
            match self.mapped_slice_values.get(&cur) {
                Some(next) => {
                    cur = *next;
                },
                None => {
                    return cur;
                },
            }
        }
    }

    /// Resolves a derived sequence id back to its defining constant.
    pub fn resolve_slice_parent(&self, id: ValueId, Ghost(n): Ghost<int>) -> (r: ValueId)
        requires
            crate::tracker::backward_map_wf(self.slice_parents@, n),
            id < n,
        ensures
            r == resolve_parent_spec(self.slice_parents@, id),
            r <= id,
    {
        let mut cur = id;
        loop
            invariant
                crate::tracker::backward_map_wf(self.slice_parents@, n),
                cur <= id,
                cur < n,
                resolve_parent_spec(self.slice_parents@, cur) == resolve_parent_spec(
                    self.slice_parents@,
                    id,
                ),
            decreases cur,
        {
            match self.slice_parents.get(&cur) {
                Some(prev) => {
                    cur = *prev;
                },
                None => {
                    return cur;
                },
            }
        }
    }
}

/// Resolution through the backward map: the defining constant any derived
/// value came from.
pub open spec fn resolve_parent_spec(m: Map<ValueId, ValueId>, id: ValueId) -> ValueId
    decreases id,
{
    if m.contains_key(id) && m[id] < id {
        resolve_parent_spec(m, m[id])
    } else {
        id
    }
}

/// Some tracked value's recorded length is exactly `x`: the resolver's
/// maxima are observed lengths, never invented ones.
pub open spec fn size_attained(m: Map<ValueId, crate::tracker::SizeEntry>, x: usize) -> bool {
    exists|k: ValueId| #[trigger] m.contains_key(k) && m[k].len == x
}

/// Resolution is a fixed point: resolving a resolved id changes nothing.
pub proof fn lemma_resolve_fixed(m: Map<ValueId, ValueId>, id: ValueId, n: nat)
    ensures
        resolve_spec(m, resolve_spec(m, id, n), n) == resolve_spec(m, id, n),
    decreases n - id,
{
    if m.contains_key(id) && id < m[id] && m[id] < n {
        lemma_resolve_fixed(m, m[id], n);
    }
}

/// The resolver's walk from `id` at `depth` closes within the recorded
/// entries and the type's nesting: the resolved value has a size entry,
/// and wherever children are recorded, the depth is still within bounds
/// and every resolved child closes one level further down.
pub open spec fn resolution_ok(
    m: Map<ValueId, crate::tracker::SizeEntry>,
    fwd: Map<ValueId, ValueId>,
    id: ValueId,
    depth: int,
    len: int,
    n: nat,
) -> bool
    decreases len - depth,
{
    let rid = resolve_spec(fwd, id, n);
    &&& m.contains_key(rid)
    &&& (m[rid].children@.len() > 0 ==> depth < len && forall|j: int|
        0 <= j < m[rid].children@.len() ==> {
            let crid = resolve_spec(fwd, #[trigger] m[rid].children@[j], n);
            m.contains_key(crid) && (depth + 1 <= len && resolution_ok(
                m,
                fwd,
                crid,
                depth + 1,
                len,
                n,
            ))
        })
}

/// The block-wide maximum `nm` bounds the recorded sizes of a tracked root
/// `k` and of all its direct children, whenever `k` is a nested sequence
/// (nesting depth at least two) with recorded children.
pub open spec fn root_bounded(
    fwd: Map<ValueId, ValueId>,
    m: Map<ValueId, crate::tracker::SizeEntry>,
    vs: Seq<ValueV>,
    k: ValueId,
    nm: usize,
    n: nat,
) -> bool {
    let rid = resolve_spec(fwd, k, n);
    (m.contains_key(rid) && m[rid].children@.len() > 0 && nested_slice_depth(
        value_typ(vs[k as int]),
    ) >= 2) ==> {
        &&& nm >= m[rid].len
        &&& forall|j: int|
            0 <= j < m[rid].children@.len() ==> {
                let crid = resolve_spec(fwd, #[trigger] m[rid].children@[j], n);
                m.contains_key(crid) && nm >= m[crid].len
            }
    }
}

impl Context {
    /// Determines the maximum possible size of an internal slice at each
    /// layer of a nested slice, accumulating into the shared per-depth
    /// vector.  Accumulated maxima only ever grow.
    ///
    /// A value absent from the size map, or a child chain running beyond
    /// the nesting depth of the root's type, is an internal invariant
    /// violation.
    pub fn compute_slice_max_sizes(
        &self,
        sizes: &SliceSizes,
        array_id: ValueId,
        max_sizes: &mut Vec<usize>,
        depth: usize,
        Ghost(n): Ghost<int>,
    ) -> (r: Result<(), InternalError>)
        requires
            forward_map_wf(self.mapped_slice_values@, n),
            sizes_wf(sizes, n),
            array_id < n,
            depth >= 1,
        ensures
            r matches Err(e) ==> e != InternalError::MultipleBlocks,
            final(max_sizes)@.len() == old(max_sizes)@.len(),
            forall|d: int|
                0 <= d < old(max_sizes)@.len() ==> old(max_sizes)@[d]
                    <= #[trigger] final(max_sizes)@[d],
            forall|d: int| 0 <= d < depth ==> #[trigger] final(max_sizes)@[d] == old(max_sizes)@[d],
            forall|d: int|
                0 <= d < old(max_sizes)@.len() ==> #[trigger] final(max_sizes)@[d] == old(
                    max_sizes,
                )@[d] || size_attained(sizes.map@, final(max_sizes)@[d]),
            r is Ok && sizes.map@[resolve_spec(
                self.mapped_slice_values@,
                array_id,
                n as nat,
            )].children@.len() == 0 ==> final(max_sizes)@ == old(max_sizes)@,
            r is Ok <==> resolution_ok(
                sizes.map@,
                self.mapped_slice_values@,
                array_id,
                depth as int,
                old(max_sizes)@.len() as int,
                n as nat,
            ),
            r is Ok ==> {
                let rid = resolve_spec(self.mapped_slice_values@, array_id, n as nat);
                &&& sizes.map@.contains_key(rid)
                &&& sizes.map@[rid].children@.len() > 0 ==> {
                    &&& (depth as int) < old(max_sizes)@.len()
                    &&& final(max_sizes)@[depth as int] >= sizes.map@[rid].len
                    &&& forall|j: int|
                        0 <= j < sizes.map@[rid].children@.len() ==> {
                            let crid = resolve_spec(
                                self.mapped_slice_values@,
                                #[trigger] sizes.map@[rid].children@[j],
                                n as nat,
                            );
                            sizes.map@.contains_key(crid) && final(max_sizes)@[depth as int]
                                >= sizes.map@[crid].len
                        }
                }
            },
        decreases max_sizes@.len() - depth,
    {
        let rid = self.resolve_slice_value(array_id, Ghost(n));
        let got = match sizes.map.get(&rid) {
            Some(e) => Some((e.len, crate::ssa::copy_ids(&e.children))),
            None => None,
        };
        let (cur_size, children) = match got {
            Some(x) => x,
            None => {
                return Err(InternalError::MissingSliceSizes);
            },
        };
        if children.len() == 0 {
            return Ok(());
        }
        if depth >= max_sizes.len() {
            return Err(InternalError::DepthOutOfRange);
        }
        let mut mx = cur_size;
        let mut j: usize = 0;
        while j < children.len()
            invariant
                forward_map_wf(self.mapped_slice_values@, n),
                sizes_wf(sizes, n),
                rid < n,
                array_id < n,
                rid == resolve_spec(self.mapped_slice_values@, array_id, n as nat),
                sizes.map@.contains_key(rid),
                children@ == sizes.map@[rid].children@,
                cur_size == sizes.map@[rid].len,
                j <= children@.len(),
                max_sizes@.len() == old(max_sizes)@.len(),
                max_sizes@.len() <= usize::MAX,
                (depth as int) < max_sizes@.len(),
                depth >= 1,
                forall|d: int|
                    0 <= d < old(max_sizes)@.len() ==> old(max_sizes)@[d] <= #[trigger] max_sizes@[d],
                forall|d: int| 0 <= d <= depth ==> #[trigger] max_sizes@[d] == old(max_sizes)@[d],
                forall|d: int|
                    0 <= d < old(max_sizes)@.len() ==> #[trigger] max_sizes@[d] == old(
                        max_sizes,
                    )@[d] || size_attained(sizes.map@, max_sizes@[d]),
                size_attained(sizes.map@, mx),
                mx >= cur_size,
                forall|jj: int|
                    0 <= jj < j ==> {
                        let crid = resolve_spec(
                            self.mapped_slice_values@,
                            #[trigger] children@[jj],
                            n as nat,
                        );
                        sizes.map@.contains_key(crid) && mx >= sizes.map@[crid].len
                            && resolution_ok(
                            sizes.map@,
                            self.mapped_slice_values@,
                            crid,
                            depth + 1,
                            old(max_sizes)@.len() as int,
                            n as nat,
                        )
                    },
            decreases children@.len() - j,
        {
            let child = children[j];
            proof {
                assert(sizes.map@[rid].children@[j as int] < n);
            }
            let crid = self.resolve_slice_value(child, Ghost(n));
            let inner = match sizes.map.get(&crid) {
                Some(e) => e.len,
                None => {
                    proof {
                        assert(children@[j as int] == sizes.map@[rid].children@[j as int]);
                        assert(!resolution_ok(
                            sizes.map@,
                            self.mapped_slice_values@,
                            array_id,
                            depth as int,
                            old(max_sizes)@.len() as int,
                            n as nat,
                        ));
                    }
                    return Err(InternalError::MissingSliceSizes);
                },
            };
            if inner > mx {
                mx = inner;
            }
            match self.compute_slice_max_sizes(sizes, crid, max_sizes, depth + 1, Ghost(n)) {
                Ok(()) => {},
                Err(e) => {
                    proof {
                        lemma_resolve_fixed(self.mapped_slice_values@, child, n as nat);
                        assert(children@[j as int] == sizes.map@[rid].children@[j as int]);
                        assert(!resolution_ok(
                            sizes.map@,
                            self.mapped_slice_values@,
                            array_id,
                            depth as int,
                            old(max_sizes)@.len() as int,
                            n as nat,
                        ));
                    }
                    return Err(e);
                },
            }
            proof {
                lemma_resolve_fixed(self.mapped_slice_values@, child, n as nat);
            }
            j += 1;
        }
        if mx > max_sizes[depth] {
            vstd::pervasive::VecAdditionalExecFns::set(max_sizes, depth, mx);
        }
        Ok(())
    }

    /// Folds the per-root resolutions into the single block-wide maximum:
    /// the largest row count any nested slice (depth one or deeper) reaches
    /// anywhere in the block.
    pub fn compute_block_nested_max(
        &self,
        dfg: &DataFlowGraph,
        sizes: &SliceSizes,
        Ghost(n): Ghost<int>,
    ) -> (r: Result<usize, InternalError>)
        requires
            n == dfg@.len(),
            forward_map_wf(self.mapped_slice_values@, n),
            sizes_wf(sizes, n),
        ensures
            r matches Err(e) ==> e != InternalError::MultipleBlocks,
            r is Ok <==> forall|i: int|
                0 <= i < sizes.keys@.len() ==> {
                    let k = #[trigger] sizes.keys@[i];
                    let d = nested_slice_depth(value_typ(dfg@[k as int]));
                    &&& d <= usize::MAX
                    &&& d >= 1
                    &&& resolution_ok(
                        sizes.map@,
                        self.mapped_slice_values@,
                        k,
                        1,
                        d as int,
                        n as nat,
                    )
                },
            r matches Ok(nm) ==> nm == 0 || size_attained(sizes.map@, nm),
            r matches Ok(nm) ==> forall|i: int|
                0 <= i < sizes.keys@.len() ==> root_bounded(
                    self.mapped_slice_values@,
                    sizes.map@,
                    dfg@,
                    #[trigger] sizes.keys@[i],
                    nm,
                    n as nat,
                ),
    {
        let mut nested_max: usize = 0;
        let mut i: usize = 0;
        while i < sizes.keys.len()
            invariant
                n == dfg@.len(),
                forward_map_wf(self.mapped_slice_values@, n),
                sizes_wf(sizes, n),
                i <= sizes.keys@.len(),
                nested_max == 0 || size_attained(sizes.map@, nested_max),
                forall|ii: int|
                    0 <= ii < i ==> {
                        let k = #[trigger] sizes.keys@[ii];
                        let d = nested_slice_depth(value_typ(dfg@[k as int]));
                        &&& d <= usize::MAX
                        &&& d >= 1
                        &&& resolution_ok(
                            sizes.map@,
                            self.mapped_slice_values@,
                            k,
                            1,
                            d as int,
                            n as nat,
                        )
                    },
                forall|ii: int|
                    0 <= ii < i ==> root_bounded(
                        self.mapped_slice_values@,
                        sizes.map@,
                        dfg@,
                        #[trigger] sizes.keys@[ii],
                        nested_max,
                        n as nat,
                    ),
            decreases sizes.keys@.len() - i,
        {
            let key = sizes.keys[i];
            proof {
                assert(sizes.map@.contains_key(sizes.keys@[i as int]));
            }
            let typ = dfg.type_of_value(key);
            let depth = match compute_nested_slice_depth(typ) {
                Some(d) => d,
                None => {
                    return Err(InternalError::SizeOverflow);
                },
            };
            if depth == 0 {
                return Err(InternalError::DepthOutOfRange);
            }
            proof {
                assert(nested_slice_depth(value_typ(dfg@[key as int])) == depth);
            }
            let mut max_sizes: Vec<usize> = Vec::new();
            let mut d: usize = 0;
            while d < depth
                invariant
                    d <= depth,
                    max_sizes@.len() == d,
                    forall|dd: int| 0 <= dd < d ==> #[trigger] max_sizes@[dd] == 0,
                decreases depth - d,
            {
                max_sizes.push(0);
                d += 1;
            }
            let elen = match sizes.map.get(&key) {
                Some(e) => e.len,
                None => {
                    proof {
                        assert(false);
                    }
                    return Err(InternalError::MissingSliceSizes);
                },
            };
            vstd::pervasive::VecAdditionalExecFns::set(&mut max_sizes, 0, elen);
            let ghost pre_fold = max_sizes@;
            match self.compute_slice_max_sizes(sizes, key, &mut max_sizes, 1, Ghost(n)) {
                Ok(()) => {},
                Err(e) => {
                    proof {
                        assert(!resolution_ok(
                            sizes.map@,
                            self.mapped_slice_values@,
                            key,
                            1,
                            depth as int,
                            n as nat,
                        ));
                    }
                    return Err(e);
                },
            }
            proof {
                assert forall|dd: int|
                    1 <= dd < max_sizes@.len() implies #[trigger] max_sizes@[dd] == 0
                        || size_attained(sizes.map@, max_sizes@[dd]) by {
                    assert(pre_fold[dd] == 0);
                }
            }
            let ghost prev_nm = nested_max;
            let mut d2: usize = 1;
            while d2 < max_sizes.len()
                invariant
                    1 <= d2 <= max_sizes@.len() || max_sizes@.len() < 1,
                    nested_max >= prev_nm,
                    forall|dd: int| 1 <= dd < d2 ==> nested_max >= #[trigger] max_sizes@[dd],
                    nested_max == 0 || size_attained(sizes.map@, nested_max),
                    forall|dd: int|
                        1 <= dd < max_sizes@.len() ==> #[trigger] max_sizes@[dd] == 0
                            || size_attained(sizes.map@, max_sizes@[dd]),
                decreases max_sizes@.len() - d2,
            {
                if max_sizes[d2] > nested_max {
                    nested_max = max_sizes[d2];
                }
                d2 += 1;
            }
            proof {
                assert forall|ii: int| 0 <= ii < i + 1 implies root_bounded(
                    self.mapped_slice_values@,
                    sizes.map@,
                    dfg@,
                    #[trigger] sizes.keys@[ii],
                    nested_max,
                    n as nat,
                ) by {
                    if ii < i {
                        assert(root_bounded(
                            self.mapped_slice_values@,
                            sizes.map@,
                            dfg@,
                            sizes.keys@[ii],
                            prev_nm,
                            n as nat,
                        ));
                    } else {
                        let k = sizes.keys@[ii];
                        let rid = resolve_spec(self.mapped_slice_values@, k, n as nat);
                        if sizes.map@.contains_key(rid) && sizes.map@[rid].children@.len() > 0
                            && nested_slice_depth(value_typ(dfg@[k as int])) >= 2 {
                            assert(nested_max >= max_sizes@[1]);
                        }
                    }
                }
            }
            i += 1;
        }
        Ok(nested_max)
    }
}

/// Whether a call argument is replaced: it is a tracked sequence whose
/// static type holds a sequence element anywhere in its structure.
pub open spec fn call_arg_qualifies(vs: Seq<ValueV>, roots: Seq<ValueId>, arg: ValueId) -> bool {
    roots.contains(arg) && crate::ir::contains_slice(value_typ(vs[arg as int]))
}

/// Relation between an original instruction entry and the last entry its
/// rewrite emits: array operations and calls on tracked sequences carry the
/// padded replacement in place of the original operand, everything else is
/// unchanged.  Results and provenance are always preserved.
pub open spec fn entry_rewritten(
    vs: Seq<ValueV>,
    roots: Seq<ValueId>,
    max: nat,
    old_e: EntryV,
    new_e: EntryV,
) -> bool {
    &&& new_e.results == old_e.results
    &&& new_e.call_stack == old_e.call_stack
    &&& match old_e.instruction {
        InstructionV::ArrayGet { array, index } => {
            if roots.contains(array) {
                new_e.instruction matches InstructionV::ArrayGet { array: a2, index: i2 } && i2
                    == index && padded_rel(
                    vs,
                    value_typ(vs[array as int]),
                    Some(array as int),
                    a2 as int,
                    max,
                    true,
                )
            } else {
                new_e.instruction == old_e.instruction
            }
        },
        InstructionV::ArraySet { array, index, value } => {
            if roots.contains(array) {
                new_e.instruction matches InstructionV::ArraySet {
                    array: a2,
                    index: i2,
                    value: v2,
                } && i2 == index && v2 == value && padded_rel(
                    vs,
                    value_typ(vs[array as int]),
                    Some(array as int),
                    a2 as int,
                    max,
                    true,
                )
            } else {
                new_e.instruction == old_e.instruction
            }
        },
        InstructionV::Call { func, arguments } => {
            new_e.instruction matches InstructionV::Call { func: f2, arguments: args2 } && f2
                == func && args2.len() == arguments.len() && forall|i: int|
                0 <= i < arguments.len() ==> {
                    if call_arg_qualifies(vs, roots, arguments[i]) {
                        padded_rel(
                            vs,
                            value_typ(vs[arguments[i] as int]),
                            Some(arguments[i] as int),
                            #[trigger] args2[i] as int,
                            max,
                            false,
                        )
                    } else {
                        args2[i] == arguments[i]
                    }
                }
        },
        _ => new_e.instruction == old_e.instruction,
    }
}

impl Context {
    /// Constructs an updated array operation whose array operand has been
    /// replaced by a padded replacement, preserving index, written value,
    /// results and provenance.
    fn get_updated_array_op_instr(
        &self,
        dfg: &mut DataFlowGraph,
        max: usize,
        array_id: ValueId,
        entry: &InstructionEntry,
    ) -> (r: Result<InstructionEntry, InternalError>)
        requires
            values_wf(old(dfg)@),
            entry_wf(old(dfg)@.len() as int, entry@),
            (entry.instruction matches Instruction::ArrayGet { array, .. } && array == array_id)
                || (entry.instruction matches Instruction::ArraySet { array, .. } && array
                == array_id),
        ensures
            r matches Err(e) ==> e != InternalError::MultipleBlocks,
            extends(old(dfg)@, final(dfg)@),
            values_wf(final(dfg)@),
            r is Ok <==> crate::fill::synth_ok(
                old(dfg)@,
                value_typ(old(dfg)@[array_id as int]),
                Some(array_id as int),
                max as nat,
                true,
            ),
            r matches Ok(ne) ==> {
                &&& entry_wf(final(dfg)@.len() as int, ne@)
                &&& ne@.results == entry@.results
                &&& ne@.call_stack == entry@.call_stack
                &&& match entry@.instruction {
                    InstructionV::ArrayGet { array, index } => ne@.instruction
                        matches InstructionV::ArrayGet { array: a2, index: i2 } && i2 == index
                        && padded_rel(
                        final(dfg)@,
                        value_typ(final(dfg)@[array as int]),
                        Some(array as int),
                        a2 as int,
                        max as nat,
                        true,
                    ),
                    InstructionV::ArraySet { array, index, value } => ne@.instruction
                        matches InstructionV::ArraySet { array: a2, index: i2, value: v2 } && i2
                        == index && v2 == value && padded_rel(
                        final(dfg)@,
                        value_typ(final(dfg)@[array as int]),
                        Some(array as int),
                        a2 as int,
                        max as nat,
                        true,
                    ),
                    _ => false,
                }
            },
    {
        proof {
            assert(instr_operands(entry@.instruction)[0] == array_id);
        }
        let typ = dfg.type_of_value(array_id).deep_clone();
        let new_array = match attach_slice_dummies(dfg, max, &typ, Some(array_id), true) {
            Ok(a) => a,
            Err(e) => {
                return Err(e);
            },
        };
        proof {
            crate::fill::lemma_extends_index(old(dfg)@, dfg@);
        }
        let new_instr = match &entry.instruction {
            Instruction::ArrayGet { index, .. } => Instruction::ArrayGet {
                array: new_array,
                index: *index,
            },
            Instruction::ArraySet { index, value, .. } => Instruction::ArraySet {
                array: new_array,
                index: *index,
                value: *value,
            },
            _ => {
                return Err(InternalError::NotAnArrayConstant);
            },
        };
        proof {
            let ops_old = instr_operands(entry@.instruction);
            let ops_new = instr_operands(new_instr@);
            assert forall|k: int| 0 <= k < ops_new.len() implies (#[trigger] ops_new[k])
                < dfg@.len() by {
                if k > 0 {
                    assert(ops_new[k] == ops_old[k]);
                    assert(ops_old[k] < old(dfg)@.len());
                }
            }
            assert forall|k: int| 0 <= k < entry@.results.len() implies (
            #[trigger] entry@.results[k]) < dfg@.len() by {
                assert(entry@.results[k] < old(dfg)@.len());
            }
        }
        Ok(
            InstructionEntry {
                instruction: new_instr,
                results: crate::ssa::copy_ids(&entry.results),
                call_stack: entry.call_stack,
            },
        )
    }

    /// Replays one instruction.  An array operation whose array is tracked,
    /// or a call with tracked sequence-holding arguments, is re-emitted
    /// with padded replacements substituted; each qualifying call argument
    /// produces its own emitted call, the later ones carrying all earlier
    /// substitutions, so the last emitted entry carries every one.  Any
    /// other instruction is emitted unchanged.
    ///
    /// Every replacement of a tracked array is recorded in `repl` so the
    /// external-I/O descriptor can be brought in step afterwards.
    pub fn push_updated_instruction(
        &self,
        dfg: &mut DataFlowGraph,
        max: usize,
        entry: &InstructionEntry,
        out: &mut Vec<InstructionEntry>,
        repl: &mut HashMap<ValueId, ValueId>,
    ) -> (r: Result<(), InternalError>)
        requires
            values_wf(old(dfg)@),
            entry_wf(old(dfg)@.len() as int, entry@),
            forall|k: ValueId|
                #[trigger] old(repl)@.contains_key(k) ==> old(repl)@[k] < old(dfg)@.len(),
        ensures
            r matches Err(e) ==> e != InternalError::MultipleBlocks,
            extends(old(dfg)@, final(dfg)@),
            values_wf(final(dfg)@),
            final(out)@.len() >= old(out)@.len(),
            final(out)@.subrange(0, old(out)@.len() as int) == old(out)@,
            forall|k: ValueId|
                #[trigger] final(repl)@.contains_key(k) ==> final(repl)@[k] < final(dfg)@.len(),
            forall|k: ValueId|
                #[trigger] old(repl)@.contains_key(k) ==> final(repl)@.contains_key(k),
            forall|k: ValueId|
                #[trigger] final(repl)@.contains_key(k) ==> (old(repl)@.contains_key(k)
                    && final(repl)@[k] == old(repl)@[k]) || (k < old(dfg)@.len() && (
                match entry@.instruction {
                    InstructionV::ArrayGet { array, .. } => array == k,
                    InstructionV::ArraySet { array, .. } => array == k,
                    _ => false,
                }) && self.slice_values@.contains(k) && padded_rel(
                    final(dfg)@,
                    value_typ(old(dfg)@[k as int]),
                    Some(k as int),
                    final(repl)@[k] as int,
                    max as nat,
                    true,
                )),
            (match entry@.instruction {
                InstructionV::ArrayGet { array, .. } => self.slice_values@.contains(array)
                    && r is Ok ==> final(repl)@.contains_key(array),
                InstructionV::ArraySet { array, .. } => self.slice_values@.contains(array)
                    && r is Ok ==> final(repl)@.contains_key(array),
                _ => final(repl)@ == old(repl)@,
            }),
            (match entry@.instruction {
                InstructionV::ArrayGet { array, .. } => !self.slice_values@.contains(array)
                    ==> final(repl)@ == old(repl)@,
                InstructionV::ArraySet { array, .. } => !self.slice_values@.contains(array)
                    ==> final(repl)@ == old(repl)@,
                _ => true,
            }),
            forall|kk: int|
                old(out)@.len() <= kk < final(out)@.len() ==> entry_wf(
                    final(dfg)@.len() as int,
                    #[trigger] final(out)@[kk]@,
                ),
            r is Ok ==> {
                &&& final(out)@.len() > old(out)@.len()
                &&& entry_rewritten(
                    final(dfg)@,
                    self.slice_values@,
                    max as nat,
                    entry@,
                    final(out)@.last()@,
                )
            },
            r is Ok && !(entry@.instruction matches InstructionV::Call { .. }) ==> final(out)@.len()
                == old(out)@.len() + 1,
            r is Ok && (match entry@.instruction {
                InstructionV::ArrayGet { array, .. } => !self.slice_values@.contains(array),
                InstructionV::ArraySet { array, .. } => !self.slice_values@.contains(array),
                InstructionV::Call { arguments, .. } => forall|i: int|
                    0 <= i < arguments.len() ==> !call_arg_qualifies(
                        old(dfg)@,
                        self.slice_values@,
                        #[trigger] arguments[i],
                    ),
                _ => true,
            }) ==> final(out)@.len() == old(out)@.len() + 1 && final(out)@.last()@ == entry@
                && final(repl)@ == old(repl)@ && final(dfg)@ == old(dfg)@,
            r is Ok <==> (match entry@.instruction {
                InstructionV::ArrayGet { array, .. } => self.slice_values@.contains(array)
                    ==> crate::fill::synth_ok(
                    old(dfg)@,
                    value_typ(old(dfg)@[array as int]),
                    Some(array as int),
                    max as nat,
                    true,
                ),
                InstructionV::ArraySet { array, .. } => self.slice_values@.contains(array)
                    ==> crate::fill::synth_ok(
                    old(dfg)@,
                    value_typ(old(dfg)@[array as int]),
                    Some(array as int),
                    max as nat,
                    true,
                ),
                InstructionV::Call { arguments, .. } => forall|i: int|
                    0 <= i < arguments.len() && call_arg_qualifies(
                        old(dfg)@,
                        self.slice_values@,
                        #[trigger] arguments[i],
                    ) ==> crate::fill::synth_ok(
                        old(dfg)@,
                        value_typ(old(dfg)@[arguments[i] as int]),
                        Some(arguments[i] as int),
                        max as nat,
                        false,
                    ),
                _ => true,
            }),
    {
        let ghost pre = old(dfg)@;
        proof {
            lemma_extends_refl(pre);
        }
        match &entry.instruction {
            Instruction::ArrayGet { array, .. } | Instruction::ArraySet { array, .. } => {
                if ids_contain(&self.slice_values, *array) {
                    let ne = match self.get_updated_array_op_instr(dfg, max, *array, entry) {
                        Ok(ne) => ne,
                        Err(e) => {
                            return Err(e);
                        },
                    };
                    let new_array = match &ne.instruction {
                        Instruction::ArrayGet { array: a2, .. } => *a2,
                        Instruction::ArraySet { array: a2, .. } => *a2,
                        _ => {
                            proof {
                                assert(false);
                            }
                            return Err(InternalError::NotAnArrayConstant);
                        },
                    };
                    proof {
                        assert(new_array < dfg@.len());
                    }
                    repl.insert(*array, new_array);
                    let ghost nev = ne@;
                    out.push(ne);
                    proof {
                        assert(out@.subrange(0, old(out)@.len() as int) =~= old(out)@);
                        assert(out@.last()@ == nev);
                        assert(entry_rewritten(
                            dfg@,
                            self.slice_values@,
                            max as nat,
                            entry@,
                            nev,
                        ));
                    }
                    Ok(())
                } else {
                    out.push(entry.deep_clone());
                    proof {
                        assert(out@.subrange(0, old(out)@.len() as int) =~= old(out)@);
                        assert(out@.last()@ == entry@);
                        assert(entry_rewritten(
                            dfg@,
                            self.slice_values@,
                            max as nat,
                            entry@,
                            entry@,
                        ));
                    }
                    Ok(())
                }
            },
            Instruction::Call { func, arguments } => {
                let mut current_args = crate::ssa::copy_ids(arguments);
                let mut any = false;
                let mut i: usize = 0;
                proof {
                    assert(instr_operands(entry@.instruction)[0] == *func);
                    assert forall|idx: int| 0 <= idx < arguments@.len() implies (
                    #[trigger] arguments@[idx]) < pre.len() by {
                        assert(instr_operands(entry@.instruction)[1 + idx] == arguments@[idx]);
                        assert(instr_operands(entry@.instruction)[1 + idx] < pre.len());
                    }
                }
                while i < arguments.len()
                    invariant
                        pre == old(dfg)@,
                        values_wf(pre),
                        values_wf(dfg@),
                        extends(pre, dfg@),
                        entry_wf(pre.len() as int, entry@),
                        entry@.instruction matches InstructionV::Call { func: f0, arguments: a0 }
                            && f0 == *func && a0 == arguments@,
                        i <= arguments@.len(),
                        forall|idx: int|
                            0 <= idx < arguments@.len() ==> (#[trigger] arguments@[idx])
                                < pre.len(),
                        current_args@.len() == arguments@.len(),
                        forall|k: ValueId|
                            #[trigger] repl@.contains_key(k) ==> repl@[k] < dfg@.len(),
                        forall|idx: int|
                            i <= idx < arguments@.len() ==> #[trigger] current_args@[idx]
                                == arguments@[idx],
                        forall|idx: int|
                            0 <= idx < i ==> {
                                if call_arg_qualifies(pre, self.slice_values@, arguments@[idx]) {
                                    padded_rel(
                                        dfg@,
                                        value_typ(pre[arguments@[idx] as int]),
                                        Some(arguments@[idx] as int),
                                        #[trigger] current_args@[idx] as int,
                                        max as nat,
                                        false,
                                    )
                                } else {
                                    current_args@[idx] == arguments@[idx]
                                }
                            },
                        out@.len() >= old(out)@.len(),
                        out@.subrange(0, old(out)@.len() as int) == old(out)@,
                        *func < pre.len(),
                        forall|idx: int|
                            0 <= idx < current_args@.len() ==> (#[trigger] current_args@[idx])
                                < dfg@.len(),
                        forall|kk: int|
                            old(out)@.len() <= kk < out@.len() ==> entry_wf(
                                dfg@.len() as int,
                                #[trigger] out@[kk]@,
                            ),
                        any ==> exists|idx: int|
                            0 <= idx < i && call_arg_qualifies(
                                pre,
                                self.slice_values@,
                                #[trigger] arguments@[idx],
                            ),
                        forall|idx: int|
                            0 <= idx < i && call_arg_qualifies(
                                pre,
                                self.slice_values@,
                                #[trigger] arguments@[idx],
                            ) ==> crate::fill::synth_ok(
                                pre,
                                value_typ(pre[arguments@[idx] as int]),
                                Some(arguments@[idx] as int),
                                max as nat,
                                false,
                            ),
                        !any ==> out@ == old(out)@ && dfg@ == pre && repl@ == old(repl)@ && (
                        forall|idx: int|
                            0 <= idx < i ==> !call_arg_qualifies(
                                pre,
                                self.slice_values@,
                                #[trigger] arguments@[idx],
                            )),
                        any ==> out@.len() > old(out)@.len() && out@.last()@ == (EntryV {
                            instruction: InstructionV::Call {
                                func: *func,
                                arguments: current_args@,
                            },
                            results: entry@.results,
                            call_stack: entry@.call_stack,
                        }),
                    decreases arguments@.len() - i,
                {
                    let arg = arguments[i];
                    proof {
                        assert(instr_operands(entry@.instruction)[1 + i as int] == arg);
                        assert(arg < pre.len());
                        lemma_extends_index(pre, dfg@);
                    }
                    if ids_contain(&self.slice_values, arg) && dfg.type_of_value(
                        arg,
                    ).contains_slice_element() {
                        let typ = dfg.type_of_value(arg).deep_clone();
                        let ghost prev = dfg@;
                        let new_array = match attach_slice_dummies(dfg, max, &typ, Some(arg), false) {
                            Ok(a) => a,
                            Err(e) => {
                                proof {
                                    lemma_extends_trans(pre, prev, dfg@);
                                    crate::fill::lemma_synth_ok_extend(
                                        pre,
                                        prev,
                                        value_typ(pre[arg as int]),
                                        Some(arg as int),
                                        max as nat,
                                        false,
                                    );
                                    assert(!crate::fill::synth_ok(
                                        pre,
                                        value_typ(pre[arg as int]),
                                        Some(arg as int),
                                        max as nat,
                                        false,
                                    ));
                                }
                                return Err(e);
                            },
                        };
                        proof {
                            crate::fill::lemma_synth_ok_extend(
                                pre,
                                prev,
                                value_typ(pre[arg as int]),
                                Some(arg as int),
                                max as nat,
                                false,
                            );
                            assert(crate::fill::synth_ok(
                                pre,
                                value_typ(pre[arg as int]),
                                Some(arg as int),
                                max as nat,
                                false,
                            ));
                        }
                        proof {
                            lemma_extends_trans(pre, prev, dfg@);
                            lemma_extends_index(pre, dfg@);
                            lemma_extends_index(prev, dfg@);
                            assert(value_typ(pre[arg as int]) == value_typ(dfg@[arg as int]));
                            assert forall|idx: int|
                                0 <= idx < i && call_arg_qualifies(
                                    pre,
                                    self.slice_values@,
                                    arguments@[idx],
                                ) implies padded_rel(
                                dfg@,
                                value_typ(pre[arguments@[idx] as int]),
                                Some(arguments@[idx] as int),
                                #[trigger] current_args@[idx] as int,
                                max as nat,
                                false,
                            ) by {
                                lemma_padded_rel_extend(
                                    prev,
                                    dfg@,
                                    value_typ(pre[arguments@[idx] as int]),
                                    Some(arguments@[idx] as int),
                                    current_args@[idx] as int,
                                    max as nat,
                                    false,
                                );
                            }
                        }
                        vstd::pervasive::VecAdditionalExecFns::set(&mut current_args, i, new_array);
                        any = true;
                        let ne = InstructionEntry {
                            instruction: Instruction::Call {
                                func: *func,
                                arguments: crate::ssa::copy_ids(&current_args),
                            },
                            results: crate::ssa::copy_ids(&entry.results),
                            call_stack: entry.call_stack,
                        };
                        out.push(ne);
                        proof {
                            assert(out@.subrange(0, old(out)@.len() as int) =~= old(out)@);
                        }
                    }
                    i += 1;
                }
                if !any {
                    out.push(entry.deep_clone());
                    proof {
                        assert(out@.subrange(0, old(out)@.len() as int) =~= old(out)@);
                        assert(out@.last()@ == entry@);
                    }
                }
                proof {
                    lemma_extends_index(pre, dfg@);
                    assert forall|idx: int| 0 <= idx < arguments@.len() implies call_arg_qualifies(
                        dfg@,
                        self.slice_values@,
                        #[trigger] arguments@[idx],
                    ) == call_arg_qualifies(pre, self.slice_values@, arguments@[idx])
                        && value_typ(dfg@[arguments@[idx] as int]) == value_typ(
                        pre[arguments@[idx] as int],
                    ) by {
                        assert(pre[arguments@[idx] as int] == dfg@[arguments@[idx] as int]);
                    }
                    assert(entry_rewritten(
                        dfg@,
                        self.slice_values@,
                        max as nat,
                        entry@,
                        out@.last()@,
                    ));
                }
                Ok(())
            },
            _ => {
                out.push(entry.deep_clone());
                proof {
                    assert(out@.subrange(0, old(out)@.len() as int) =~= old(out)@);
                    assert(out@.last()@ == entry@);
                }
                Ok(())
            },
        }
    }
}

/// The rewritten instruction stream of a whole block: `src` assigns each
/// emitted entry the original instruction it came from, in order, every
/// original produced at least one entry, and the last entry of each
/// original's group carries every substitution of [`entry_rewritten`].
/// Some emitted entry is attributed to original index `jj`.
pub open spec fn covers(src: Seq<int>, jj: int) -> bool {
    exists|k: int| 0 <= k < src.len() && #[trigger] src[k] == jj
}

pub open spec fn block_rewritten(
    vs: Seq<ValueV>,
    roots: Seq<ValueId>,
    max: nat,
    olds: Seq<EntryV>,
    news: Seq<EntryV>,
    src: Seq<int>,
) -> bool {
    &&& src.len() == news.len()
    &&& forall|k: int| 0 <= k < src.len() ==> 0 <= #[trigger] src[k] < olds.len()
    &&& forall|k1: int, k2: int| 0 <= k1 <= k2 < src.len() ==> #[trigger] src[k1] <= #[trigger] src[k2]
    &&& forall|jj: int| 0 <= jj < olds.len() ==> #[trigger] covers(src, jj)
    &&& forall|k: int|
        0 <= k < src.len() && (k == src.len() - 1 || src[k + 1] != src[k]) ==> entry_rewritten(
            vs,
            roots,
            max,
            olds[#[trigger] src[k]],
            news[k],
        )
}

/// Every operand of the block that qualifies as a tracked sequence root
/// stands in the tracked set: the rewrite may not pass one by.
pub open spec fn roots_complete(vs: Seq<ValueV>, olds: Seq<EntryV>, roots: Seq<ValueId>) -> bool {
    forall|j: int, k: int|
        0 <= j < olds.len() && 0 <= k < instr_operands(olds[j].instruction).len()
            && crate::tracker::qualifies_as_root(
            vs,
            #[trigger] instr_operands(olds[j].instruction)[k],
        ) ==> roots.contains(instr_operands(olds[j].instruction)[k])
}

/// No operand of any instruction of the block names a concrete sequence
/// constant: the pass then has nothing to track and must succeed without
/// changing a thing.
pub open spec fn no_sequence_operands(vs: Seq<ValueV>, entries: Seq<EntryV>) -> bool {
    forall|j: int, k: int|
        0 <= j < entries.len() && 0 <= k < instr_operands(entries[j].instruction).len() ==> !((
        #[trigger] vs[instr_operands(entries[j].instruction)[k] as int]) is Array)
}

/// No instruction of the block writes a sequence: neither an `ArraySet`
/// nor a slice intrinsic call stands among the entries, so every sequence
/// identity keeps its defining constant.
pub open spec fn no_sequence_writes(vs: Seq<ValueV>, entries: Seq<EntryV>) -> bool {
    forall|j: int|
        0 <= j < entries.len() ==> !((#[trigger] entries[j]).instruction is ArraySet)
            && !crate::tracker::is_intrinsic_call(vs, entries[j])
}

/// The block-wide maximum covers every directly nested slice constant of
/// every tracked root: no nested instance is truncated.
pub open spec fn max_covers_children(vs: Seq<ValueV>, roots: Seq<ValueId>, max: nat) -> bool {
    forall|x: int, k: int|
        0 <= x < roots.len() && #[trigger] crate::tracker::slice_content_at(
            vs,
            roots[x],
            k,
        ) ==> max as int >= crate::tracker::rows_spec(
            vs,
            crate::tracker::content_at(vs, roots[x], k),
        )
}

/// The block rewrite replaced this id: it is a tracked sequence root
/// standing as the array operand of some array operation of the block.
pub open spec fn replaced_in_block(
    entries: Seq<EntryV>,
    roots: Seq<ValueId>,
    id: ValueId,
) -> bool {
    exists|j: int|
        0 <= j < entries.len() && (match (#[trigger] entries[j]).instruction {
            InstructionV::ArrayGet { array, .. } => array == id,
            InstructionV::ArraySet { array, .. } => array == id,
            _ => false,
        }) && roots.contains(id)
}

/// A list of value ids resolved through the block's substitution: an entry
/// whose old value the rewrite replaced names a padded replacement of it,
/// and only an unreplaced entry keeps its identity.
pub open spec fn remapped_ids(
    vs: Seq<ValueV>,
    entries: Seq<EntryV>,
    roots: Seq<ValueId>,
    olds: Seq<ValueId>,
    news: Seq<ValueId>,
    max: nat,
) -> bool {
    &&& news.len() == olds.len()
    &&& forall|i: int|
        0 <= i < olds.len() ==> if replaced_in_block(entries, roots, olds[i]) {
            padded_rel(
                vs,
                value_typ(vs[olds[i] as int]),
                Some(olds[i] as int),
                #[trigger] news[i] as int,
                max,
                true,
            )
        } else {
            (#[trigger] news[i]) == olds[i]
        }
}

/// A rewritten entry stays one when the value store grows: the relation
/// only reads values the original instruction already named.
pub proof fn lemma_entry_rewritten_extend(
    vs1: Seq<ValueV>,
    vs2: Seq<ValueV>,
    roots: Seq<ValueId>,
    max: nat,
    old_e: EntryV,
    new_e: EntryV,
)
    requires
        entry_rewritten(vs1, roots, max, old_e, new_e),
        entry_wf(vs1.len() as int, old_e),
        extends(vs1, vs2),
    ensures
        entry_rewritten(vs2, roots, max, old_e, new_e),
{
    lemma_extends_index(vs1, vs2);
    match old_e.instruction {
        InstructionV::ArrayGet { array, index } => {
            if roots.contains(array) {
                assert(instr_operands(old_e.instruction)[0] == array);
                assert(vs1[array as int] == vs2[array as int]);
                match new_e.instruction {
                    InstructionV::ArrayGet { array: a2, .. } => {
                        lemma_padded_rel_extend(
                            vs1,
                            vs2,
                            value_typ(vs1[array as int]),
                            Some(array as int),
                            a2 as int,
                            max,
                            true,
                        );
                    },
                    _ => {},
                }
            }
        },
        InstructionV::ArraySet { array, index, value } => {
            if roots.contains(array) {
                assert(instr_operands(old_e.instruction)[0] == array);
                assert(vs1[array as int] == vs2[array as int]);
                match new_e.instruction {
                    InstructionV::ArraySet { array: a2, .. } => {
                        lemma_padded_rel_extend(
                            vs1,
                            vs2,
                            value_typ(vs1[array as int]),
                            Some(array as int),
                            a2 as int,
                            max,
                            true,
                        );
                    },
                    _ => {},
                }
            }
        },
        InstructionV::Call { func, arguments } => {
            match new_e.instruction {
                InstructionV::Call { func: f2, arguments: args2 } => {
                    assert forall|i: int| 0 <= i < arguments.len() implies ({
                        if call_arg_qualifies(vs2, roots, arguments[i]) {
                            padded_rel(
                                vs2,
                                value_typ(vs2[arguments[i] as int]),
                                Some(arguments[i] as int),
                                #[trigger] args2[i] as int,
                                max,
                                false,
                            )
                        } else {
                            args2[i] == arguments[i]
                        }
                    }) by {
                        assert(instr_operands(old_e.instruction)[1 + i] == arguments[i]);
                        assert(arguments[i] < vs1.len());
                        assert(vs1[arguments[i] as int] == vs2[arguments[i] as int]);
                        if call_arg_qualifies(vs1, roots, arguments[i]) {
                            lemma_padded_rel_extend(
                                vs1,
                                vs2,
                                value_typ(vs1[arguments[i] as int]),
                                Some(arguments[i] as int),
                                args2[i] as int,
                                max,
                                false,
                            );
                        }
                    }
                },
                _ => {},
            }
        },
        _ => {},
    }
}

/// Rewrites one function in place.  Functions targeting the alternate,
/// non-circuit runtime are left untouched; a circuit-targeted function must
/// consist of exactly one block, and is otherwise rejected outright.
/// One rewrite step keeps every recorded replacement of an original value
/// a padded replacement: earlier entries carry over to the grown store, and
/// a new entry was padded against the store of its step.
proof fn lemma_repl_step(
    pre_dfg: Seq<ValueV>,
    prev: Seq<ValueV>,
    cur: Seq<ValueV>,
    prev_repl: Map<ValueId, ValueId>,
    cur_repl: Map<ValueId, ValueId>,
    max: nat,
    n: int,
)
    requires
        n == pre_dfg.len(),
        extends(pre_dfg, prev),
        extends(prev, cur),
        forall|k: ValueId|
            #[trigger] prev_repl.contains_key(k) && k < n ==> padded_rel(
                prev,
                value_typ(pre_dfg[k as int]),
                Some(k as int),
                prev_repl[k] as int,
                max,
                true,
            ),
        forall|k: ValueId|
            #[trigger] cur_repl.contains_key(k) ==> (prev_repl.contains_key(k) && cur_repl[k]
                == prev_repl[k]) || (k < prev.len() && padded_rel(
                cur,
                value_typ(prev[k as int]),
                Some(k as int),
                cur_repl[k] as int,
                max,
                true,
            )),
    ensures
        forall|k: ValueId|
            #[trigger] cur_repl.contains_key(k) && k < n ==> padded_rel(
                cur,
                value_typ(pre_dfg[k as int]),
                Some(k as int),
                cur_repl[k] as int,
                max,
                true,
            ),
{
    lemma_extends_index(pre_dfg, prev);
    assert forall|k: ValueId| #[trigger] cur_repl.contains_key(k) && k < n implies padded_rel(
        cur,
        value_typ(pre_dfg[k as int]),
        Some(k as int),
        cur_repl[k] as int,
        max,
        true,
    ) by {
        if prev_repl.contains_key(k) && cur_repl[k] == prev_repl[k] {
            lemma_padded_rel_extend(
                prev,
                cur,
                value_typ(pre_dfg[k as int]),
                Some(k as int),
                cur_repl[k] as int,
                max,
                true,
            );
        } else {
            assert(value_typ(prev[k as int]) == value_typ(pre_dfg[k as int]));
        }
    }
}

#[verifier::rlimit(100)]
pub fn process_function(f: &mut Function) -> (r: Result<(), InternalError>)
    requires
        crate::ssa::function_wf(old(f)),
        crate::ssa::function_ordered(old(f)),
        crate::ssa::function_results_fresh(old(f)),
    ensures
        crate::ssa::function_wf(final(f)),
        final(f).name@ == old(f).name@,
        final(f).runtime == old(f).runtime,
        final(f).blocks@.len() == old(f).blocks@.len(),
        extends(old(f).dfg@, final(f).dfg@),
        old(f).runtime != RuntimeType::Acir ==> r is Ok && *final(f) == *old(f),
        (old(f).runtime == RuntimeType::Acir && old(f).blocks@.len() != 1) <==> (r matches Err(e)
            && e == InternalError::MultipleBlocks),
        old(f).runtime == RuntimeType::Acir && old(f).blocks@.len() == 1 && no_sequence_operands(
            old(f).dfg@,
            entries_view(old(f).blocks@[0].instructions@),
        ) ==> r is Ok,
        r is Ok && old(f).runtime == RuntimeType::Acir && old(f).blocks@.len() == 1 ==> {
            &&& final(f).blocks@[0].terminator_args@.len() == old(
                f,
            ).blocks@[0].terminator_args@.len()
            &&& final(f).databus@.len() == old(f).databus@.len()
            &&& exists|src: Seq<int>, roots: Seq<ValueId>, max: nat|
                #[trigger] block_rewritten(
                    final(f).dfg@,
                    roots,
                    max,
                    entries_view(old(f).blocks@[0].instructions@),
                    entries_view(final(f).blocks@[0].instructions@),
                    src,
                ) && remapped_ids(
                    final(f).dfg@,
                    entries_view(old(f).blocks@[0].instructions@),
                    roots,
                    old(f).blocks@[0].terminator_args@,
                    final(f).blocks@[0].terminator_args@,
                    max,
                ) && remapped_ids(
                    final(f).dfg@,
                    entries_view(old(f).blocks@[0].instructions@),
                    roots,
                    old(f).databus@,
                    final(f).databus@,
                    max,
                )
                    && crate::tracker::roots_sound(old(f).dfg@, roots) && roots_complete(
                    old(f).dfg@,
                    entries_view(old(f).blocks@[0].instructions@),
                    roots,
                ) && (max == 0 || max <= crate::tracker::max_const_rows(
                    old(f).dfg@,
                    old(f).dfg@.len() as int,
                ) + crate::tracker::pushback_count(
                    old(f).dfg@,
                    entries_view(old(f).blocks@[0].instructions@),
                )) && (no_sequence_writes(
                    old(f).dfg@,
                    entries_view(old(f).blocks@[0].instructions@),
                ) ==> max_covers_children(old(f).dfg@, roots, max))
        },
{
    if !matches!(f.runtime, RuntimeType::Acir) {
        proof {
            lemma_extends_refl(f.dfg@);
        }
        return Ok(());
    }
    if f.blocks.len() != 1 {
        proof {
            lemma_extends_refl(f.dfg@);
        }
        return Err(InternalError::MultipleBlocks);
    }
    let ghost n = f.dfg@.len() as int;
    let ghost pre_dfg = f.dfg@;
    let block = match f.blocks.pop() {
        Some(b) => b,
        None => {
            proof {
                assert(false);
            }
            return Err(InternalError::MultipleBlocks);
        },
    };
    proof {
        assert(block == old(f).blocks@[0]);
        assert(crate::ssa::block_wf(n, &block));
        assert(crate::ssa::block_ordered(&block));
    }
    // Collection scan: observe every instruction once, in program order.
    let mut sizes = SliceSizes::new();
    let mut tracker = SliceCapacityTracker::new();
    proof {
        assert(sizes_wf(&sizes, n));
        assert(crate::tracker::tracker_wf(&tracker, n));
    }
    let mut i: usize = 0;
    while i < block.instructions.len()
        invariant
            f.dfg@ == pre_dfg,
            pre_dfg == old(f).dfg@,
            f.dfg == old(f).dfg,
            f.name@ == old(f).name@,
            f.runtime == old(f).runtime,
            f.databus == old(f).databus,
            f.blocks@.len() == 0,
            old(f).blocks@.len() == 1,
            block == old(f).blocks@[0],
            n == f.dfg@.len() as int,
            values_wf(f.dfg@),
            crate::ssa::block_wf(n, &block),
            crate::ssa::block_ordered(&block),
            crate::ssa::block_results_fresh(pre_dfg, &block),
            i <= block.instructions@.len(),
            sizes_wf(&sizes, n),
            crate::tracker::tracker_wf(&tracker, n),
            crate::tracker::roots_sound(pre_dfg, tracker.slice_values@),
            crate::tracker::map_roots_tracked(pre_dfg, sizes.map@, tracker.slice_values@),
            crate::tracker::constants_len_exact(pre_dfg, sizes.map@),
            no_sequence_operands(pre_dfg, entries_view(block.instructions@)) ==> sizes.map@
                == Map::<ValueId, crate::tracker::SizeEntry>::empty() && tracker.slice_values@
                == Seq::<ValueId>::empty(),
            crate::tracker::map_lens_bounded(
                sizes.map@,
                crate::tracker::max_const_rows(pre_dfg, n) + crate::tracker::pushback_count(
                    pre_dfg,
                    entries_view(block.instructions@).take(i as int),
                ),
            ),
            crate::tracker::children_complete(pre_dfg, sizes.map@),
            crate::tracker::roots_recorded(sizes.map@, tracker.slice_values@),
            no_sequence_writes(pre_dfg, entries_view(block.instructions@))
                ==> tracker.mapped_slice_values@ == Map::<ValueId, ValueId>::empty(),
            forall|jj: int, k: int|
                0 <= jj < i && 0 <= k < instr_operands(
                    block.instructions@[jj]@.instruction,
                ).len() && crate::tracker::qualifies_as_root(
                    pre_dfg,
                    #[trigger] instr_operands(block.instructions@[jj]@.instruction)[k],
                ) ==> tracker.slice_values@.contains(
                    instr_operands(block.instructions@[jj]@.instruction)[k],
                ),
        decreases block.instructions@.len() - i,
    {
        proof {
            assert(crate::ssa::entry_wf(n, block.instructions@[i as int]@));
            assert(crate::ssa::entry_ordered(block.instructions@[i as int]@));
            assert forall|k: int|
                0 <= k < block.instructions@[i as int]@.results.len() implies !((
            #[trigger] pre_dfg[block.instructions@[i as int]@.results[k] as int]) is Array) by {
                assert(crate::ssa::entry_wf(n, block.instructions@[i as int]@));
                assert(block.instructions@[i as int]@.results[k] < n);
            }
        }
        let ghost sv_pre = tracker.slice_values@;
        proof {
            if no_sequence_operands(pre_dfg, entries_view(block.instructions@)) {
                assert forall|k: int|
                    0 <= k < instr_operands(block.instructions@[i as int]@.instruction).len()
                        implies !((#[trigger] pre_dfg[instr_operands(
                    block.instructions@[i as int]@.instruction,
                )[k] as int]) is Array) by {
                    assert(entries_view(block.instructions@)[i as int]
                        == block.instructions@[i as int]@);
                }
            }
        }
        let ghost pre_szm = sizes.map@;
        proof {
            if no_sequence_writes(pre_dfg, entries_view(block.instructions@)) {
                assert(entries_view(block.instructions@)[i as int]
                    == block.instructions@[i as int]@);
                assert(!(block.instructions@[i as int]@.instruction is ArraySet)
                    && !crate::tracker::is_intrinsic_call(
                    pre_dfg,
                    block.instructions@[i as int]@,
                ));
            }
        }
        tracker.collect_slice_information(&f.dfg, &block.instructions[i], &mut sizes);
        proof {
            crate::tracker::lemma_pushback_count_step(
                pre_dfg,
                entries_view(block.instructions@),
                i as int,
            );
            crate::tracker::lemma_const_rows_nonneg(pre_dfg, n);
            assert(entries_view(block.instructions@)[i as int] == block.instructions@[i as int]@);
            let b_now = crate::tracker::max_const_rows(pre_dfg, n)
                + crate::tracker::pushback_count(
                pre_dfg,
                entries_view(block.instructions@).take(i as int + 1),
            );
            assert forall|kx: ValueId| #[trigger] sizes.map@.contains_key(kx)
                implies sizes.map@[kx].len <= b_now by {
                if sizes.map@[kx].len <= crate::tracker::max_const_rows(pre_dfg, n) + (
                if crate::tracker::is_pushback(pre_dfg, block.instructions@[i as int]@) {
                    1int
                } else {
                    0int
                }) {
                } else {
                    let k2 = choose|k2: ValueId|
                        #[trigger] pre_szm.contains_key(k2) && sizes.map@[kx].len <= pre_szm[k2].len
                            + (if crate::tracker::is_pushback(
                            pre_dfg,
                            block.instructions@[i as int]@,
                        ) {
                            1int
                        } else {
                            0int
                        });
                    assert(pre_szm[k2].len <= crate::tracker::max_const_rows(pre_dfg, n)
                        + crate::tracker::pushback_count(
                        pre_dfg,
                        entries_view(block.instructions@).take(i as int),
                    ));
                }
            }
            assert forall|jj: int, k: int|
                0 <= jj < i + 1 && 0 <= k < instr_operands(
                    block.instructions@[jj]@.instruction,
                ).len() && crate::tracker::qualifies_as_root(
                    pre_dfg,
                    #[trigger] instr_operands(block.instructions@[jj]@.instruction)[k],
                ) implies tracker.slice_values@.contains(
                instr_operands(block.instructions@[jj]@.instruction)[k],
            ) by {
                if jj < i {
                    assert(sv_pre.contains(
                        instr_operands(block.instructions@[jj]@.instruction)[k],
                    ));
                }
            }
        }
        i += 1;
    }
    let mut context = Context {
        mapped_slice_values: tracker.mapped_slice_values,
        slice_parents: tracker.slice_parents,
        slice_values: tracker.slice_values,
        nested_max: None,
    };
    // Fold the per-root resolutions into the block-wide maximum.
    let nested_max = match context.compute_block_nested_max(&f.dfg, &sizes, Ghost(n)) {
        Ok(m) => m,
        Err(e) => {
            f.blocks.push(block);
            proof {
                assert(f.blocks@ =~= old(f).blocks@);
                lemma_extends_refl(f.dfg@);
                if no_sequence_operands(pre_dfg, entries_view(block.instructions@)) {
                    assert(sizes.keys@.len() == 0) by {
                        if sizes.keys@.len() > 0 {
                            assert(sizes.map@.contains_key(sizes.keys@[0]));
                        }
                    }
                    assert(false);
                }
            }
            return Err(e);
        },
    };
    context.nested_max = Some(nested_max);
    proof {
        assert(entries_view(block.instructions@).take(block.instructions@.len() as int)
            =~= entries_view(block.instructions@));
        if nested_max != 0 {
            let kw = choose|kw: ValueId|
                #[trigger] sizes.map@.contains_key(kw) && sizes.map@[kw].len == nested_max;
            assert(nested_max as int <= crate::tracker::max_const_rows(pre_dfg, n)
                + crate::tracker::pushback_count(pre_dfg, entries_view(block.instructions@)));
        }
        if no_sequence_writes(pre_dfg, entries_view(block.instructions@)) {
            assert forall|x: int, kq: int|
                0 <= x < context.slice_values@.len() && #[trigger] crate::tracker::slice_content_at(
                    pre_dfg,
                    context.slice_values@[x],
                    kq,
                ) implies nested_max as int >= crate::tracker::rows_spec(
                pre_dfg,
                crate::tracker::content_at(pre_dfg, context.slice_values@[x], kq),
            ) by {
                let a = context.slice_values@[x];
                assert(sizes.map@.contains_key(a));
                assert(sizes.keys@.contains(a));
                let ki = choose|ki: int| 0 <= ki < sizes.keys@.len() && sizes.keys@[ki] == a;
                assert(root_bounded(
                    context.mapped_slice_values@,
                    sizes.map@,
                    pre_dfg,
                    sizes.keys@[ki],
                    nested_max,
                    n as nat,
                ));
                assert(resolve_spec(context.mapped_slice_values@, a, n as nat) == a);
                assert(crate::tracker::qualifies_as_root(pre_dfg, a));
                match value_typ(pre_dfg[a as int]) {
                    crate::ir::TypeV::Slice(es) => {
                        crate::ir::lemma_types_contain_slice_depth(es);
                        assert(nested_slice_depth(value_typ(pre_dfg[a as int])) >= 2);
                    },
                    _ => {},
                }
                let c = crate::tracker::content_at(pre_dfg, a, kq);
                assert(sizes.map@[a].children@.contains(c));
                let cj = choose|cj: int|
                    0 <= cj < sizes.map@[a].children@.len() && sizes.map@[a].children@[cj] == c;
                assert(sizes.map@[a].children@.len() > 0);
                assert(resolve_spec(
                    context.mapped_slice_values@,
                    sizes.map@[a].children@[cj],
                    n as nat,
                ) == c);
                assert(sizes.map@.contains_key(c) && nested_max >= sizes.map@[c].len);
                if pre_dfg[c as int] is Array {
                    assert(sizes.map@[c].len == crate::tracker::rows_spec(pre_dfg, c));
                } else {
                    assert(crate::tracker::rows_spec(pre_dfg, c) == 0);
                }
            }
            assert(max_covers_children(pre_dfg, context.slice_values@, nested_max as nat));
        }
        lemma_extends_refl(pre_dfg);
        assert forall|x: int| 0 <= x < f.databus@.len() implies (#[trigger] f.databus@[x])
            < n by {
            assert(crate::ssa::function_wf(old(f)));
        }
    }
    // Rewrite scan: replay every instruction with padded replacements.
    let mut new_entries: Vec<InstructionEntry> = Vec::new();
    let mut repl: HashMap<ValueId, ValueId> = HashMap::new();
    let ghost mut src_idx: Seq<int> = Seq::empty();
    let ghost olds = entries_view(block.instructions@);
    let mut j: usize = 0;
    while j < block.instructions.len()
        invariant
            n == pre_dfg.len() as int,
            pre_dfg == old(f).dfg@,
            f.name@ == old(f).name@,
            f.runtime == old(f).runtime,
            old(f).runtime == RuntimeType::Acir,
            f.databus == old(f).databus,
            forall|x: int| 0 <= x < f.databus@.len() ==> (#[trigger] f.databus@[x]) < n,
            f.blocks@.len() == 0,
            old(f).blocks@.len() == 1,
            block == old(f).blocks@[0],
            extends(pre_dfg, f.dfg@),
            values_wf(f.dfg@),
            crate::ssa::block_wf(n, &block),
            j <= block.instructions@.len(),
            forall|k: ValueId| #[trigger] repl@.contains_key(k) ==> repl@[k] < f.dfg@.len(),
            forall|k: ValueId|
                #[trigger] repl@.contains_key(k) && k < n ==> padded_rel(
                    f.dfg@,
                    value_typ(pre_dfg[k as int]),
                    Some(k as int),
                    repl@[k] as int,
                    nested_max as nat,
                    true,
                ),
            forall|id: ValueId|
                #[trigger] repl@.contains_key(id) == replaced_in_block(
                    olds.take(j as int),
                    context.slice_values@,
                    id,
                ),
            forall|kk: int|
                0 <= kk < new_entries@.len() ==> crate::ssa::entry_wf(
                    f.dfg@.len() as int,
                    #[trigger] new_entries@[kk]@,
                ),
            olds == entries_view(block.instructions@),
            olds.len() == block.instructions@.len(),
            no_sequence_operands(pre_dfg, entries_view(block.instructions@))
                ==> context.slice_values@ == Seq::<ValueId>::empty(),
            src_idx.len() == new_entries@.len(),
            forall|k: int| 0 <= k < src_idx.len() ==> 0 <= #[trigger] src_idx[k] < j,
            forall|k1: int, k2: int|
                0 <= k1 <= k2 < src_idx.len() ==> #[trigger] src_idx[k1] <= #[trigger] src_idx[k2],
            forall|jj: int| 0 <= jj < j ==> #[trigger] covers(src_idx, jj),
            forall|k: int|
                0 <= k < src_idx.len() && (k == src_idx.len() - 1 || src_idx[k + 1] != src_idx[k])
                    ==> entry_rewritten(
                    f.dfg@,
                    context.slice_values@,
                    nested_max as nat,
                    olds[#[trigger] src_idx[k]],
                    new_entries@[k]@,
                ),
        decreases block.instructions@.len() - j,
    {
        let ghost prev = f.dfg@;
        let ghost prev_entries = new_entries@;
        let ghost prev_src = src_idx;
        let ghost ghost_repl_prev = repl@;
        proof {
            assert(crate::ssa::entry_wf(n, block.instructions@[j as int]@));
        }
        let res = context.push_updated_instruction(
            &mut f.dfg,
            nested_max,
            &block.instructions[j],
            &mut new_entries,
            &mut repl,
        );
        proof {
            lemma_extends_trans(pre_dfg, prev, f.dfg@);
            assert forall|kk: int| 0 <= kk < new_entries@.len() implies crate::ssa::entry_wf(
                f.dfg@.len() as int,
                #[trigger] new_entries@[kk]@,
            ) by {
                if kk < prev_entries.len() {
                    assert(new_entries@.subrange(0, prev_entries.len() as int)[kk]
                        == new_entries@[kk]);
                    assert(new_entries@[kk] == prev_entries[kk]);
                    crate::ssa::lemma_entry_wf_mono(
                        prev.len() as int,
                        f.dfg@.len() as int,
                        new_entries@[kk]@,
                    );
                }
            }
        }
        match res {
            Ok(()) => {
                proof {
                    lemma_repl_step(
                        pre_dfg,
                        prev,
                        f.dfg@,
                        ghost_repl_prev,
                        repl@,
                        nested_max as nat,
                        n,
                    );
                    let taken1 = olds.take(j as int);
                    let taken2 = olds.take(j as int + 1);
                    assert(taken2 =~= taken1.push(olds[j as int]));
                    assert(olds[j as int] == block.instructions@[j as int]@);
                    assert forall|id: ValueId| #[trigger] repl@.contains_key(id)
                        == replaced_in_block(taken2, context.slice_values@, id) by {
                        if repl@.contains_key(id) {
                            if ghost_repl_prev.contains_key(id) {
                                assert(replaced_in_block(taken1, context.slice_values@, id));
                                let jj = choose|jj: int|
                                    0 <= jj < taken1.len() && (match (
                                    #[trigger] taken1[jj]).instruction {
                                        InstructionV::ArrayGet { array, .. } => array == id,
                                        InstructionV::ArraySet { array, .. } => array == id,
                                        _ => false,
                                    }) && context.slice_values@.contains(id);
                                assert(taken2[jj] == taken1[jj]);
                                assert(replaced_in_block(taken2, context.slice_values@, id));
                            } else {
                                assert(taken2[j as int] == olds[j as int]);
                                assert(replaced_in_block(taken2, context.slice_values@, id));
                            }
                        }
                        if replaced_in_block(taken2, context.slice_values@, id) {
                            let jj = choose|jj: int|
                                0 <= jj < taken2.len() && (match (
                                #[trigger] taken2[jj]).instruction {
                                    InstructionV::ArrayGet { array, .. } => array == id,
                                    InstructionV::ArraySet { array, .. } => array == id,
                                    _ => false,
                                }) && context.slice_values@.contains(id);
                            if jj < j {
                                assert(taken1[jj] == taken2[jj]);
                                assert(replaced_in_block(taken1, context.slice_values@, id));
                                assert(ghost_repl_prev.contains_key(id));
                            } else {
                                assert(taken2[jj] == block.instructions@[j as int]@);
                            }
                            assert(repl@.contains_key(id));
                        }
                    }
                    let added = new_entries@.len() - prev_entries.len();
                    src_idx = prev_src + Seq::new(added as nat, |x: int| j as int);
                    assert forall|k: int| 0 <= k < prev_entries.len() implies new_entries@[k]
                        == prev_entries[k] by {
                        assert(new_entries@.subrange(0, prev_entries.len() as int)[k]
                            == new_entries@[k]);
                    }
                    assert forall|k: int| 0 <= k < src_idx.len() implies 0 <= #[trigger] src_idx[k]
                        < j + 1 by {
                        if k < prev_src.len() {
                            assert(src_idx[k] == prev_src[k]);
                        } else {
                            assert(src_idx[k] == j as int);
                        }
                    }
                    assert forall|k1: int, k2: int|
                        0 <= k1 <= k2 < src_idx.len() implies #[trigger] src_idx[k1]
                        <= #[trigger] src_idx[k2] by {
                        if k2 < prev_src.len() {
                            assert(src_idx[k1] == prev_src[k1] && src_idx[k2] == prev_src[k2]);
                        } else if k1 < prev_src.len() {
                            assert(src_idx[k1] == prev_src[k1] && src_idx[k2] == j as int);
                            assert(prev_src[k1] < j as int);
                        } else {
                            assert(src_idx[k1] == j as int && src_idx[k2] == j as int);
                        }
                    }
                    assert forall|jj: int| 0 <= jj < j + 1 implies #[trigger] covers(
                        src_idx,
                        jj,
                    ) by {
                        if jj < j {
                            assert(covers(prev_src, jj));
                            let k = choose|k: int|
                                0 <= k < prev_src.len() && #[trigger] prev_src[k] == jj;
                            assert(src_idx[k] == jj);
                        } else {
                            assert(new_entries@.len() > prev_entries.len());
                            assert(src_idx[prev_src.len() as int] == j as int);
                        }
                    }
                    assert forall|k: int|
                        0 <= k < src_idx.len() && (k == src_idx.len() - 1 || src_idx[k + 1]
                            != src_idx[k]) implies entry_rewritten(
                        f.dfg@,
                        context.slice_values@,
                        nested_max as nat,
                        olds[#[trigger] src_idx[k]],
                        new_entries@[k]@,
                    ) by {
                        if k < prev_src.len() {
                            assert(src_idx[k] == prev_src[k]);
                            if k < prev_src.len() - 1 {
                                assert(src_idx[k + 1] == prev_src[k + 1]);
                            }
                            assert(entry_rewritten(
                                prev,
                                context.slice_values@,
                                nested_max as nat,
                                olds[prev_src[k]],
                                prev_entries[k]@,
                            ));
                            assert(new_entries@[k] == prev_entries[k]);
                            assert(crate::ssa::entry_wf(n, olds[src_idx[k]]));
                            crate::ssa::lemma_entry_wf_mono(n, prev.len() as int, olds[src_idx[k]]);
                            lemma_entry_rewritten_extend(
                                prev,
                                f.dfg@,
                                context.slice_values@,
                                nested_max as nat,
                                olds[src_idx[k]],
                                new_entries@[k]@,
                            );
                        } else {
                            assert(src_idx[k] == j as int);
                            if k < src_idx.len() - 1 {
                                assert(src_idx[k + 1] == j as int);
                            } else {
                                assert(new_entries@[k] == new_entries@.last());
                                assert(olds[j as int] == block.instructions@[j as int]@);
                            }
                        }
                    }
                }
            },
            Err(e) => {
                f.blocks.push(block);
                proof {
                    assert(f.blocks@ =~= old(f).blocks@);
                    assert forall|ii: int| 0 <= ii < f.blocks@.len() implies crate::ssa::block_wf(
                        f.dfg@.len() as int,
                        &f.blocks@[ii],
                    ) by {
                        assert(crate::ssa::block_wf(n, &block));
                        assert(n <= f.dfg@.len());
                    }
                    assert forall|x: int| 0 <= x < f.databus@.len() implies (
                    #[trigger] f.databus@[x]) < f.dfg@.len() by {
                        assert(f.databus@[x] < n);
                    }
                    if no_sequence_operands(pre_dfg, entries_view(block.instructions@)) {
                        assert(context.slice_values@.len() == 0);
                        assert(forall|x: ValueId| !context.slice_values@.contains(x));
                        assert(false);
                    }
                }
                return Err(e);
            },
        }
        j += 1;
    }
    proof {
        assert forall|x: int| 0 <= x < f.databus@.len() implies (#[trigger] f.databus@[x])
            < n by {
            assert(crate::ssa::function_wf(old(f)));
        }
        assert forall|k: int| 0 <= k < new_entries@.len() implies entries_view(new_entries@)[k]
            == new_entries@[k]@ by {}
        assert(block_rewritten(
            f.dfg@,
            context.slice_values@,
            nested_max as nat,
            olds,
            entries_view(new_entries@),
            src_idx,
        ));
    }
    // Resolve the terminator's operands through the same substitution, and
    // remap the external-I/O descriptor so sequence-typed entries reflect
    // their rewritten identities.
    proof {
        assert(olds.take(j as int) =~= olds);
        assert forall|id: ValueId| #[trigger] repl@.contains_key(id) == replaced_in_block(
            olds,
            context.slice_values@,
            id,
        ) by {
            assert(repl@.contains_key(id) == replaced_in_block(
                olds.take(j as int),
                context.slice_values@,
                id,
            ));
        }
    }
    let mut new_term: Vec<ValueId> = Vec::new();
    let mut t: usize = 0;
    while t < block.terminator_args.len()
        invariant
            olds == entries_view(block.instructions@),
            block == old(f).blocks@[0],
            extends(pre_dfg, f.dfg@),
            n == pre_dfg.len() as int,
            pre_dfg == old(f).dfg@,
            crate::ssa::block_wf(n, &block),
            forall|x: ValueId| #[trigger] repl@.contains_key(x) ==> repl@[x] < f.dfg@.len(),
            forall|x: ValueId|
                #[trigger] repl@.contains_key(x) && x < n ==> padded_rel(
                    f.dfg@,
                    value_typ(pre_dfg[x as int]),
                    Some(x as int),
                    repl@[x] as int,
                    nested_max as nat,
                    true,
                ),
            forall|id: ValueId|
                #[trigger] repl@.contains_key(id) == replaced_in_block(
                    olds,
                    context.slice_values@,
                    id,
                ),
            t <= block.terminator_args@.len(),
            new_term@.len() == t,
            forall|x: int| 0 <= x < t ==> (#[trigger] new_term@[x]) < f.dfg@.len(),
            forall|x: int|
                0 <= x < t ==> if replaced_in_block(
                    olds,
                    context.slice_values@,
                    block.terminator_args@[x],
                ) {
                    padded_rel(
                        f.dfg@,
                        value_typ(pre_dfg[block.terminator_args@[x] as int]),
                        Some(block.terminator_args@[x] as int),
                        #[trigger] new_term@[x] as int,
                        nested_max as nat,
                        true,
                    )
                } else {
                    (#[trigger] new_term@[x]) == block.terminator_args@[x]
                },
        decreases block.terminator_args@.len() - t,
    {
        let e = block.terminator_args[t];
        proof {
            assert(block.terminator_args@[t as int] < n);
        }
        let mapped = match repl.get(&e) {
            Some(x) => *x,
            None => e,
        };
        new_term.push(mapped);
        t += 1;
    }
    let mut new_databus: Vec<ValueId> = Vec::new();
    let mut k: usize = 0;
    while k < f.databus.len()
        invariant
            block_rewritten(
                f.dfg@,
                context.slice_values@,
                nested_max as nat,
                olds,
                entries_view(new_entries@),
                src_idx,
            ),
            olds == entries_view(block.instructions@),
            block == old(f).blocks@[0],
            extends(pre_dfg, f.dfg@),
            n == pre_dfg.len() as int,
            pre_dfg == old(f).dfg@,
            f.name@ == old(f).name@,
            f.runtime == old(f).runtime,
            f.databus == old(f).databus,
            f.blocks@.len() == 0,
            old(f).blocks@.len() == 1,
            values_wf(f.dfg@),
            forall|kk: int|
                0 <= kk < new_entries@.len() ==> crate::ssa::entry_wf(
                    f.dfg@.len() as int,
                    #[trigger] new_entries@[kk]@,
                ),
            forall|x: ValueId| #[trigger] repl@.contains_key(x) ==> repl@[x] < f.dfg@.len(),
            forall|x: ValueId|
                #[trigger] repl@.contains_key(x) && x < n ==> padded_rel(
                    f.dfg@,
                    value_typ(pre_dfg[x as int]),
                    Some(x as int),
                    repl@[x] as int,
                    nested_max as nat,
                    true,
                ),
            forall|id: ValueId|
                #[trigger] repl@.contains_key(id) == replaced_in_block(
                    olds,
                    context.slice_values@,
                    id,
                ),
            forall|x: int| 0 <= x < f.databus@.len() ==> (#[trigger] f.databus@[x]) < n,
            k <= f.databus@.len(),
            new_databus@.len() == k,
            forall|x: int|
                0 <= x < k ==> (#[trigger] new_databus@[x]) < f.dfg@.len(),
            forall|x: int|
                0 <= x < k ==> if replaced_in_block(
                    olds,
                    context.slice_values@,
                    f.databus@[x],
                ) {
                    padded_rel(
                        f.dfg@,
                        value_typ(pre_dfg[f.databus@[x] as int]),
                        Some(f.databus@[x] as int),
                        #[trigger] new_databus@[x] as int,
                        nested_max as nat,
                        true,
                    )
                } else {
                    (#[trigger] new_databus@[x]) == f.databus@[x]
                },
        decreases f.databus@.len() - k,
    {
        let e = f.databus[k];
        let mapped = match repl.get(&e) {
            Some(x) => *x,
            None => e,
        };
        new_databus.push(mapped);
        k += 1;
    }
    f.databus = new_databus;
    let ghost new_entries_v = new_entries@;
    f.blocks.push(Block { instructions: new_entries, terminator_args: new_term });
    proof {
        assert(f.blocks@.len() == 1);
        assert(f.blocks@[0].instructions@ == new_entries_v);
        assert(block_rewritten(
            f.dfg@,
            context.slice_values@,
            nested_max as nat,
            entries_view(old(f).blocks@[0].instructions@),
            entries_view(f.blocks@[0].instructions@),
            src_idx,
        ));
        assert forall|ii: int| 0 <= ii < f.blocks@.len() implies crate::ssa::block_wf(
            f.dfg@.len() as int,
            &f.blocks@[ii],
        ) by {
            assert forall|x: int|
                0 <= x < f.blocks@[0].terminator_args@.len() implies (
            #[trigger] f.blocks@[0].terminator_args@[x]) < f.dfg@.len() by {
                assert(f.blocks@[0].terminator_args@[x] == new_term@[x]);
            }
        }
        lemma_extends_index(pre_dfg, f.dfg@);
        assert forall|x: int| 0 <= x < old(f).blocks@[0].terminator_args@.len() implies (
        #[trigger] pre_dfg[old(f).blocks@[0].terminator_args@[x] as int]) == f.dfg@[old(
            f,
        ).blocks@[0].terminator_args@[x] as int] by {
            assert(crate::ssa::block_wf(n, &block));
            assert(block.terminator_args@[x] < n);
        }
        assert forall|x: int| 0 <= x < old(f).databus@.len() implies (#[trigger] pre_dfg[old(
            f,
        ).databus@[x] as int]) == f.dfg@[old(f).databus@[x] as int] by {
            assert(crate::ssa::function_wf(old(f)));
            assert(old(f).databus@[x] < n);
        }
        assert(remapped_ids(
            f.dfg@,
            olds,
            context.slice_values@,
            old(f).blocks@[0].terminator_args@,
            f.blocks@[0].terminator_args@,
            nested_max as nat,
        ));
        assert(remapped_ids(
            f.dfg@,
            olds,
            context.slice_values@,
            old(f).databus@,
            f.databus@,
            nested_max as nat,
        ));
        assert(crate::tracker::roots_sound(pre_dfg, context.slice_values@));
        assert forall|jj: int, k: int|
            0 <= jj < olds.len() && 0 <= k < instr_operands(olds[jj].instruction).len()
                && crate::tracker::qualifies_as_root(
                pre_dfg,
                #[trigger] instr_operands(olds[jj].instruction)[k],
            ) implies context.slice_values@.contains(instr_operands(olds[jj].instruction)[k]) by {
            assert(olds[jj] == block.instructions@[jj]@);
        }
        assert(roots_complete(pre_dfg, olds, context.slice_values@));
    }
    Ok(())
}

impl Ssa {
    /// The internal-slice data fill pass: rewrites every circuit-targeted
    /// function so that, within its single block, all nested sequences at a
    /// given nesting depth share one length, padded with zero-shaped dummy
    /// data; the external-I/O descriptor is remapped in step.  Functions
    /// targeting the alternate runtime pass through untouched, and a
    /// circuit-targeted function with more than one block aborts the whole
    /// compilation.
    pub fn fill_internal_slices(self) -> (r: Result<Ssa, InternalError>)
        requires
            crate::ssa::ssa_wf(&self),
            crate::ssa::ssa_ordered(&self),
            crate::ssa::ssa_results_fresh(&self),
        ensures
            r matches Ok(s) ==> {
                &&& s.functions@.len() == self.functions@.len()
                &&& crate::ssa::ssa_wf(&s)
                &&& forall|i: int|
                    0 <= i < s.functions@.len() ==> {
                        &&& (#[trigger] s.functions@[i]).name@ == self.functions@[i].name@
                        &&& s.functions@[i].runtime == self.functions@[i].runtime
                        &&& s.functions@[i].blocks@.len() == self.functions@[i].blocks@.len()
                        &&& extends(self.functions@[i].dfg@, s.functions@[i].dfg@)
                        &&& self.functions@[i].runtime != RuntimeType::Acir ==> s.functions@[i]
                            == self.functions@[i]
                        &&& self.functions@[i].runtime == RuntimeType::Acir
                            ==> self.functions@[i].blocks@.len() == 1
                        &&& self.functions@[i].runtime == RuntimeType::Acir
                            && self.functions@[i].blocks@.len() == 1 ==> exists|
                            src: Seq<int>,
                            roots: Seq<ValueId>,
                            max: nat,
                        |
                            #[trigger] block_rewritten(
                                s.functions@[i].dfg@,
                                roots,
                                max,
                                entries_view(self.functions@[i].blocks@[0].instructions@),
                                entries_view(s.functions@[i].blocks@[0].instructions@),
                                src,
                            ) && remapped_ids(
                                s.functions@[i].dfg@,
                                entries_view(self.functions@[i].blocks@[0].instructions@),
                                roots,
                                self.functions@[i].blocks@[0].terminator_args@,
                                s.functions@[i].blocks@[0].terminator_args@,
                                max,
                            ) && remapped_ids(
                                s.functions@[i].dfg@,
                                entries_view(self.functions@[i].blocks@[0].instructions@),
                                roots,
                                self.functions@[i].databus@,
                                s.functions@[i].databus@,
                                max,
                            ) && crate::tracker::roots_sound(self.functions@[i].dfg@, roots)
                                && roots_complete(
                                self.functions@[i].dfg@,
                                entries_view(self.functions@[i].blocks@[0].instructions@),
                                roots,
                            ) && (max == 0 || max <= crate::tracker::max_const_rows(
                                self.functions@[i].dfg@,
                                self.functions@[i].dfg@.len() as int,
                            ) + crate::tracker::pushback_count(
                                self.functions@[i].dfg@,
                                entries_view(self.functions@[i].blocks@[0].instructions@),
                            )) && (no_sequence_writes(
                                self.functions@[i].dfg@,
                                entries_view(self.functions@[i].blocks@[0].instructions@),
                            ) ==> max_covers_children(self.functions@[i].dfg@, roots, max))
                    }
            },
            (r matches Err(e) && e == InternalError::MultipleBlocks) ==> exists|i: int|
                0 <= i < self.functions@.len() && (#[trigger] self.functions@[i]).runtime
                    == RuntimeType::Acir && self.functions@[i].blocks@.len() != 1,
            (forall|i: int|
                0 <= i < self.functions@.len() && (#[trigger] self.functions@[i]).runtime
                    == RuntimeType::Acir ==> self.functions@[i].blocks@.len() == 1
                    && no_sequence_operands(
                    self.functions@[i].dfg@,
                    entries_view(self.functions@[i].blocks@[0].instructions@),
                )) ==> r is Ok,
            (r matches Err(e) && e != InternalError::MultipleBlocks) ==> exists|i: int|
                0 <= i < self.functions@.len() && (#[trigger] self.functions@[i]).runtime
                    == RuntimeType::Acir && self.functions@[i].blocks@.len() == 1
                    && !no_sequence_operands(
                    self.functions@[i].dfg@,
                    entries_view(self.functions@[i].blocks@[0].instructions@),
                ),
    {
        let ghost orig = self.functions@;
        let mut fs = self.functions;
        let mut out_fs: Vec<Function> = Vec::new();
        while fs.len() > 0
            invariant
                orig == self.functions@,
                out_fs@.len() + fs@.len() == orig.len(),
                forall|i: int|
                    0 <= i < fs@.len() ==> #[trigger] fs@[i] == orig[out_fs@.len() + i],
                forall|i: int|
                    0 <= i < orig.len() ==> crate::ssa::function_wf(#[trigger] &orig[i])
                        && crate::ssa::function_ordered(&orig[i])
                        && crate::ssa::function_results_fresh(&orig[i]),
                forall|i: int|
                    0 <= i < out_fs@.len() ==> {
                        &&& crate::ssa::function_wf(#[trigger] &out_fs@[i])
                        &&& out_fs@[i].name@ == orig[i].name@
                        &&& out_fs@[i].runtime == orig[i].runtime
                        &&& out_fs@[i].blocks@.len() == orig[i].blocks@.len()
                        &&& extends(orig[i].dfg@, out_fs@[i].dfg@)
                        &&& orig[i].runtime != RuntimeType::Acir ==> out_fs@[i] == orig[i]
                        &&& orig[i].runtime == RuntimeType::Acir ==> orig[i].blocks@.len() == 1
                        &&& orig[i].runtime == RuntimeType::Acir && orig[i].blocks@.len() == 1
                            ==> exists|src: Seq<int>, roots: Seq<ValueId>, max: nat|
                            #[trigger] block_rewritten(
                                out_fs@[i].dfg@,
                                roots,
                                max,
                                entries_view(orig[i].blocks@[0].instructions@),
                                entries_view(out_fs@[i].blocks@[0].instructions@),
                                src,
                            ) && remapped_ids(
                                out_fs@[i].dfg@,
                                entries_view(orig[i].blocks@[0].instructions@),
                                roots,
                                orig[i].blocks@[0].terminator_args@,
                                out_fs@[i].blocks@[0].terminator_args@,
                                max,
                            ) && remapped_ids(
                                out_fs@[i].dfg@,
                                entries_view(orig[i].blocks@[0].instructions@),
                                roots,
                                orig[i].databus@,
                                out_fs@[i].databus@,
                                max,
                            ) && crate::tracker::roots_sound(orig[i].dfg@, roots)
                                && roots_complete(
                                orig[i].dfg@,
                                entries_view(orig[i].blocks@[0].instructions@),
                                roots,
                            ) && (max == 0 || max <= crate::tracker::max_const_rows(
                                orig[i].dfg@,
                                orig[i].dfg@.len() as int,
                            ) + crate::tracker::pushback_count(
                                orig[i].dfg@,
                                entries_view(orig[i].blocks@[0].instructions@),
                            )) && (no_sequence_writes(
                                orig[i].dfg@,
                                entries_view(orig[i].blocks@[0].instructions@),
                            ) ==> max_covers_children(orig[i].dfg@, roots, max))
                    },
            decreases fs@.len(),
        {
            let mut func = fs.remove(0);
            let ghost pf = func;
            proof {
                assert(func == orig[out_fs@.len() as int]);
            }
            match process_function(&mut func) {
                Ok(()) => {},
                Err(e) => {
                    proof {
                        let idx = out_fs@.len() as int;
                        if e == InternalError::MultipleBlocks {
                            assert(pf.runtime == RuntimeType::Acir && pf.blocks@.len() != 1);
                            assert(0 <= idx < orig.len() && orig[idx].runtime == RuntimeType::Acir
                                && orig[idx].blocks@.len() != 1);
                        } else {
                            assert(pf.runtime == RuntimeType::Acir && pf.blocks@.len() == 1
                                && !no_sequence_operands(
                                pf.dfg@,
                                entries_view(pf.blocks@[0].instructions@),
                            ));
                            assert(0 <= idx < orig.len() && orig[idx].runtime == RuntimeType::Acir
                                && orig[idx].blocks@.len() == 1 && !no_sequence_operands(
                                orig[idx].dfg@,
                                entries_view(orig[idx].blocks@[0].instructions@),
                            ));
                        }
                    }
                    return Err(e);
                },
            }
            out_fs.push(func);
        }
        Ok(Ssa { functions: out_fs })
    }
}

} // verus!
