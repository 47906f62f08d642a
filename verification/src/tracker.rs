//! The capacity tracker: one forward scan over a block's instructions that
//! builds the slice-sizes map, the tracked-values set, and the forward and
//! backward equivalence maps describing how sequence identities evolve
//! across writes and size-changing intrinsics.
//!
//! A recorded length is never revised downward: an operation that could
//! shrink a sequence still keeps its pre-shrink maximum, so that a later
//! re-growth stays within an already-reserved bound.

use crate::ir::types_view;
use crate::ir::IrType;
use crate::ssa::copy_ids;
use crate::ssa::entry_wf;
use crate::ssa::instr_operands;
use crate::ssa::value_wf;
use crate::ssa::values_wf;
use crate::ssa::DataFlowGraph;
use crate::ssa::Instruction;
use crate::ssa::InstructionEntry;
use crate::ssa::InstructionV;
use crate::ssa::IntrinsicOp;
use crate::ssa::Value;
use crate::ssa::ValueId;
use crate::ssa::ValueV;
use std::collections::HashMap;
use vstd::prelude::*;

verus! {

broadcast use vstd::std_specs::hash::group_hash_axioms;

/// What the tracker records of one sequence value: the largest row count it
/// was observed with, and the values nested one sequence level below it.
pub struct SizeEntry {
    pub len: usize,
    pub children: Vec<ValueId>,
}

/// The slice-sizes map, with its key list kept alongside so the entries can
/// be walked in insertion order.
pub struct SliceSizes {
    pub map: HashMap<ValueId, SizeEntry>,
    pub keys: Vec<ValueId>,
}

/// The sizes map is well formed with respect to a value store of `n` values:
/// the key list mirrors the map's domain without duplicates, and every
/// recorded id is a defined value.
pub open spec fn sizes_maps_wf(m: Map<ValueId, SizeEntry>, keys: Seq<ValueId>, n: int) -> bool {
    &&& forall|i: int| 0 <= i < keys.len() ==> m.contains_key(#[trigger] keys[i])
    &&& forall|k: ValueId| m.contains_key(k) ==> keys.contains(k)
    &&& keys.no_duplicates()
    &&& forall|k: ValueId| m.contains_key(k) ==> k < n
    &&& forall|k: ValueId|
        #[trigger] m.contains_key(k) ==> forall|j: int|
            0 <= j < m[k].children@.len() ==> (#[trigger] m[k].children@[j]) < n
}

/// See [`sizes_maps_wf`].
pub open spec fn sizes_wf(s: &SliceSizes, n: int) -> bool {
    sizes_maps_wf(s.map@, s.keys@, n)
}

/// Recording one well-bounded entry keeps the sizes map well formed.
pub proof fn lemma_put_wf(m: Map<ValueId, SizeEntry>, keys: Seq<ValueId>, k: ValueId, e: SizeEntry, n: int)
    requires
        sizes_maps_wf(m, keys, n),
        k < n,
        forall|j: int| 0 <= j < e.children@.len() ==> (#[trigger] e.children@[j]) < n,
    ensures
        sizes_maps_wf(
            m.insert(k, e),
            if m.contains_key(k) {
                keys
            } else {
                keys.push(k)
            },
            n,
        ),
{
    let m2 = m.insert(k, e);
    if m.contains_key(k) {
        assert forall|i: int| 0 <= i < keys.len() implies m2.contains_key(#[trigger] keys[i]) by {
            assert(m.contains_key(keys[i]));
        }
        assert forall|x: ValueId| m2.contains_key(x) implies keys.contains(x) by {
            assert(m.contains_key(x));
        }
    } else {
        let keys2 = keys.push(k);
        assert(!keys.contains(k)) by {
            if keys.contains(k) {
                let j = choose|j: int| 0 <= j < keys.len() && keys[j] == k;
                assert(m.contains_key(keys[j]));
            }
        }
        assert forall|i: int| 0 <= i < keys2.len() implies m2.contains_key(#[trigger] keys2[i]) by {
            if i < keys.len() {
                assert(keys2[i] == keys[i]);
                assert(m.contains_key(keys[i]));
            } else {
                assert(keys2[i] == k);
            }
        }
        assert forall|x: ValueId| m2.contains_key(x) implies keys2.contains(x) by {
            if x == k {
                assert(keys2[keys.len() as int] == k);
            } else {
                assert(m.contains_key(x));
                assert(keys.contains(x));
                let j = choose|j: int| 0 <= j < keys.len() && keys[j] == x;
                assert(keys2[j] == x);
                assert(keys2.contains(x));
            }
        }
        assert forall|i: int, j: int|
            0 <= i < keys2.len() && 0 <= j < keys2.len() && i != j implies keys2[i] != keys2[j] by {
            if i < keys.len() && j < keys.len() {
                assert(keys2[i] == keys[i] && keys2[j] == keys[j]);
            } else if i < keys.len() {
                assert(keys2[i] == keys[i] && keys2[j] == k);
                assert(keys.contains(keys[i]));
            } else {
                assert(keys2[i] == k && keys2[j] == keys[j]);
                assert(keys.contains(keys[j]));
            }
        }
        assert(keys2.no_duplicates());
    }
}

/// The recorded maximum of every tracked value in `s1` still stands, no
/// smaller, in `s2`: sizes only ever grow as the scan proceeds.
pub open spec fn sizes_monotone(s1: Map<ValueId, SizeEntry>, s2: Map<ValueId, SizeEntry>) -> bool {
    forall|k: ValueId|
        #[trigger] s1.contains_key(k) ==> s2.contains_key(k) && s1[k].len <= s2[k].len
}

/// Recording a fresh entry, or re-recording one with no smaller a length,
/// never shrinks a recorded maximum.
pub proof fn lemma_monotone_insert(m: Map<ValueId, SizeEntry>, k: ValueId, e: SizeEntry)
    requires
        !m.contains_key(k) || m[k].len <= e.len,
    ensures
        sizes_monotone(m, m.insert(k, e)),
{
    assert forall|x: ValueId| #[trigger] m.contains_key(x) implies m.insert(k, e).contains_key(x)
        && m[x].len <= m.insert(k, e)[x].len by {
        if x != k {
            assert(m.insert(k, e)[x] == m[x]);
        }
    }
}

/// Growth of the recorded maxima is transitive.
pub proof fn lemma_monotone_trans(
    s1: Map<ValueId, SizeEntry>,
    s2: Map<ValueId, SizeEntry>,
    s3: Map<ValueId, SizeEntry>,
)
    requires
        sizes_monotone(s1, s2),
        sizes_monotone(s2, s3),
    ensures
        sizes_monotone(s1, s3),
{
    assert forall|k: ValueId| #[trigger] s1.contains_key(k) implies s3.contains_key(k) && s1[k].len
        <= s3[k].len by {
        assert(s2.contains_key(k));
    }
}

impl SliceSizes {
    /// An empty sizes map.
    pub fn new() -> (r: SliceSizes)
        ensures
            r.map@ == Map::<ValueId, SizeEntry>::empty(),
            sizes_wf(&r, 0),
    {
        let r = SliceSizes { map: HashMap::new(), keys: Vec::new() };
        r
    }

    /// Inserts or replaces an entry, keeping the key list in step.
    fn put(&mut self, k: ValueId, e: SizeEntry)
        ensures
            final(self).map@ == old(self).map@.insert(k, e),
            old(self).map@.contains_key(k) ==> final(self).keys@ == old(self).keys@,
            !old(self).map@.contains_key(k) ==> final(self).keys@ == old(self).keys@.push(k),
    {
        if !self.map.contains_key(&k) {
            self.keys.push(k);
        }
        self.map.insert(k, e);
    }
}

/// A forward equivalence map is well formed: each original id maps to an id
/// defined strictly later, and both are defined values.  Chains therefore
/// cannot cycle.
pub open spec fn forward_map_wf(m: Map<ValueId, ValueId>, n: int) -> bool {
    forall|k: ValueId| #[trigger] m.contains_key(k) ==> k < m[k] && m[k] < n
}

/// A backward equivalence map is well formed: each derived id maps to an id
/// defined strictly earlier.
pub open spec fn backward_map_wf(m: Map<ValueId, ValueId>, n: int) -> bool {
    forall|k: ValueId| #[trigger] m.contains_key(k) ==> m[k] < k && k < n
}

/// A value that counts as a tracked sequence root: a concrete sequence
/// constant whose type is a slice whose element row itself holds a slice —
/// a nested sequence the rewrite must replace.
pub open spec fn qualifies_as_root(vs: Seq<crate::ssa::ValueV>, a: ValueId) -> bool {
    &&& (a as int) < vs.len()
    &&& vs[a as int] matches crate::ssa::ValueV::Array { typ: crate::ir::TypeV::Slice(elems), .. }
        && elems.len() > 0 && crate::ir::types_contain_slice(elems)
}

/// Every recorded root qualifies as one.
pub open spec fn roots_sound(vs: Seq<crate::ssa::ValueV>, roots: Seq<ValueId>) -> bool {
    forall|x: int| 0 <= x < roots.len() ==> qualifies_as_root(vs, #[trigger] roots[x])
}

/// Every sequence constant already recorded in the sizes map that qualifies
/// as a root stands in the tracked set.
pub open spec fn map_roots_tracked(
    vs: Seq<crate::ssa::ValueV>,
    m: Map<ValueId, SizeEntry>,
    roots: Seq<ValueId>,
) -> bool {
    forall|a: ValueId|
        #[trigger] m.contains_key(a) && qualifies_as_root(vs, a) ==> roots.contains(a)
}

/// The row count a concrete sequence constant carries: its element count
/// divided by its row width for a slice, its static length for a
/// fixed-size array.
pub open spec fn rows_spec(vs: Seq<crate::ssa::ValueV>, a: ValueId) -> int {
    match vs[a as int] {
        crate::ssa::ValueV::Array { contents, typ: crate::ir::TypeV::Slice(elems) } => contents.len() as int
            / elems.len() as int,
        crate::ssa::ValueV::Array { contents, typ: crate::ir::TypeV::Array(_, n2) } => n2 as int,
        _ => 0,
    }
}

/// Every sequence constant's recorded length is exactly its own row count:
/// only derived identities (results of writes and intrinsics) ever carry a
/// grown bound.
pub open spec fn constants_len_exact(
    vs: Seq<crate::ssa::ValueV>,
    m: Map<ValueId, SizeEntry>,
) -> bool {
    forall|a: ValueId|
        #[trigger] m.contains_key(a) && (vs[a as int] is Array) ==> m[a].len == rows_spec(vs, a)
}

/// The largest row count any concrete sequence constant among the first
/// `upto` values carries.
pub open spec fn max_const_rows(vs: Seq<crate::ssa::ValueV>, upto: int) -> int
    decreases upto,
{
    if upto <= 0 {
        0
    } else {
        let prev = max_const_rows(vs, upto - 1);
        let here = if vs[upto - 1] is Array {
            rows_spec(vs, (upto - 1) as ValueId)
        } else {
            0
        };
        if here > prev {
            here
        } else {
            prev
        }
    }
}

/// Every constant's row count is below the store-wide maximum.
pub proof fn lemma_const_rows_bound(vs: Seq<crate::ssa::ValueV>, a: ValueId, upto: int)
    requires
        0 <= a < upto,
        vs[a as int] is Array,
    ensures
        rows_spec(vs, a) <= max_const_rows(vs, upto),
        max_const_rows(vs, upto) >= 0,
    decreases upto,
{
    if a + 1 < upto {
        lemma_const_rows_bound(vs, a, upto - 1);
    } else {
        lemma_const_rows_nonneg(vs, upto - 1);
    }
}

/// The store-wide maximum row count is never negative.
pub proof fn lemma_const_rows_nonneg(vs: Seq<crate::ssa::ValueV>, upto: int)
    ensures
        max_const_rows(vs, upto) >= 0,
    decreases upto,
{
    if upto > 0 {
        lemma_const_rows_nonneg(vs, upto - 1);
    }
}

/// Every recorded length lies below the bound.
pub open spec fn map_lens_bounded(m: Map<ValueId, SizeEntry>, b: int) -> bool {
    forall|k: ValueId| #[trigger] m.contains_key(k) ==> m[k].len <= b
}

/// The entry is a call of the size-increasing slice intrinsic.
pub open spec fn is_pushback(vs: Seq<crate::ssa::ValueV>, e: crate::ssa::EntryV) -> bool {
    match e.instruction {
        InstructionV::Call { func, .. } => (func as int) < vs.len() && (match vs[func as int] {
            ValueV::Intrinsic { op, .. } => op == IntrinsicOp::SlicePushBack,
            _ => false,
        }),
        _ => false,
    }
}

/// How many size-increasing intrinsic calls stand among the entries.
pub open spec fn pushback_count(vs: Seq<crate::ssa::ValueV>, entries: Seq<crate::ssa::EntryV>) -> int
    decreases entries,
{
    if entries.len() == 0 {
        0
    } else {
        pushback_count(vs, entries.drop_last()) + (if is_pushback(vs, entries.last()) {
            1int
        } else {
            0int
        })
    }
}

/// The push-back count never drops below zero and grows stepwise along a
/// prefix.
pub proof fn lemma_pushback_count_step(vs: Seq<crate::ssa::ValueV>, entries: Seq<crate::ssa::EntryV>, i: int)
    requires
        0 <= i < entries.len(),
    ensures
        pushback_count(vs, entries.take(i + 1)) == pushback_count(vs, entries.take(i)) + (
        if is_pushback(vs, entries[i]) {
            1int
        } else {
            0int
        }),
        pushback_count(vs, entries.take(i)) >= 0,
    decreases i,
{
    let t1 = entries.take(i + 1);
    assert(t1.drop_last() =~= entries.take(i));
    assert(t1.last() == entries[i]);
    if i > 0 {
        lemma_pushback_count_step(vs, entries, i - 1);
    } else {
        assert(entries.take(0).len() == 0);
    }
}

/// Position `k` of the sequence constant `a` holds a directly slice-typed
/// element.
pub open spec fn slice_content_at(vs: Seq<crate::ssa::ValueV>, a: ValueId, k: int) -> bool {
    match vs[a as int] {
        crate::ssa::ValueV::Array { contents, typ: crate::ir::TypeV::Slice(elems) } => elems.len()
            > 0 && 0 <= k < contents.len() && (elems[k % elems.len() as int] is Slice),
        _ => false,
    }
}

/// The element at position `k` of the sequence constant `a`.
pub open spec fn content_at(vs: Seq<crate::ssa::ValueV>, a: ValueId, k: int) -> ValueId {
    match vs[a as int] {
        crate::ssa::ValueV::Array { contents, .. } => if 0 <= k < contents.len() {
            contents[k]
        } else {
            0
        },
        _ => 0,
    }
}

/// Every directly slice-typed element of a recorded sequence constant
/// stands among that constant's recorded children.
pub open spec fn children_complete(
    vs: Seq<crate::ssa::ValueV>,
    m: Map<ValueId, SizeEntry>,
) -> bool {
    forall|a: ValueId, k: int|
        #[trigger] m.contains_key(a) && #[trigger] slice_content_at(vs, a, k)
            ==> m[a].children@.contains(content_at(vs, a, k))
}

/// Every tracked root has a size entry.
pub open spec fn roots_recorded(m: Map<ValueId, SizeEntry>, roots: Seq<ValueId>) -> bool {
    forall|i: int| 0 <= i < roots.len() ==> m.contains_key(#[trigger] roots[i])
}

/// The entry is a call of some slice intrinsic.
pub open spec fn is_intrinsic_call(vs: Seq<crate::ssa::ValueV>, e: crate::ssa::EntryV) -> bool {
    match e.instruction {
        InstructionV::Call { func, .. } => (func as int) < vs.len() && (vs[func as int] is Intrinsic),
        _ => false,
    }
}

/// Observes every instruction of a block once, in program order, and builds
/// the size and equivalence maps.
pub struct SliceCapacityTracker {
    /// Maps an original sequence id to the id it becomes after a write or a
    /// size-changing intrinsic.
    pub mapped_slice_values: HashMap<ValueId, ValueId>,
    /// The inverse: maps a derived id back to the id it came from.
    pub slice_parents: HashMap<ValueId, ValueId>,
    /// Sequence constants holding nested slices: the roots the rewrite pass
    /// replaces.
    pub slice_values: Vec<ValueId>,
}

/// The tracker's maps are well formed for a store of `n` values.
pub open spec fn tracker_wf(t: &SliceCapacityTracker, n: int) -> bool {
    &&& forward_map_wf(t.mapped_slice_values@, n)
    &&& backward_map_wf(t.slice_parents@, n)
    &&& forall|i: int| 0 <= i < t.slice_values@.len() ==> (#[trigger] t.slice_values@[i]) < n
}

impl SliceCapacityTracker {
    /// A tracker with nothing observed yet.
    pub fn new() -> (r: SliceCapacityTracker)
        ensures
            r.mapped_slice_values@ == Map::<ValueId, ValueId>::empty(),
            r.slice_parents@ == Map::<ValueId, ValueId>::empty(),
            r.slice_values@ == Seq::<ValueId>::empty(),
            tracker_wf(&r, 0),
    {
        SliceCapacityTracker {
            mapped_slice_values: HashMap::new(),
            slice_parents: HashMap::new(),
            slice_values: Vec::new(),
        }
    }

    /// Seeds the sizes map from a concrete sequence constant: its own row
    /// count, and recursively every sequence constant nested inside it.
    /// Only values whose type holds a slice anywhere are of interest.
    ///
    /// An entry is built once per constant; a later encounter leaves the
    /// recorded (possibly already grown) length alone.
    fn compute_slice_sizes(
        &mut self,
        dfg: &DataFlowGraph,
        id: ValueId,
        sizes: &mut SliceSizes,
    )
        requires
            values_wf(dfg@),
            id < dfg@.len(),
            sizes_wf(old(sizes), dfg@.len() as int),
            tracker_wf(old(self), dfg@.len() as int),
            roots_sound(dfg@, old(self).slice_values@),
            map_roots_tracked(dfg@, old(sizes).map@, old(self).slice_values@),
            constants_len_exact(dfg@, old(sizes).map@),
            children_complete(dfg@, old(sizes).map@),
            roots_recorded(old(sizes).map@, old(self).slice_values@),
        ensures
            sizes_wf(final(sizes), dfg@.len() as int),
            tracker_wf(final(self), dfg@.len() as int),
            sizes_monotone(old(sizes).map@, final(sizes).map@),
            final(self).mapped_slice_values@ == old(self).mapped_slice_values@,
            final(self).slice_parents@ == old(self).slice_parents@,
            forall|x: ValueId|
                old(self).slice_values@.contains(x) ==> final(self).slice_values@.contains(x),
            roots_sound(dfg@, final(self).slice_values@),
            map_roots_tracked(dfg@, final(sizes).map@, final(self).slice_values@),
            qualifies_as_root(dfg@, id) ==> final(self).slice_values@.contains(id),
            constants_len_exact(dfg@, final(sizes).map@),
            forall|k: ValueId|
                #[trigger] final(sizes).map@.contains_key(k) && !old(sizes).map@.contains_key(k)
                    ==> (dfg@[k as int] is Array),
            !(dfg@[id as int] is Array) ==> final(sizes).map@ == old(sizes).map@
                && final(self).slice_values@ == old(self).slice_values@,
            forall|k: ValueId|
                #[trigger] final(sizes).map@.contains_key(k) ==> (old(sizes).map@.contains_key(k)
                    && final(sizes).map@[k] == old(sizes).map@[k]) || final(sizes).map@[k].len
                    <= max_const_rows(dfg@, dfg@.len() as int),
            children_complete(dfg@, final(sizes).map@),
            roots_recorded(final(sizes).map@, final(self).slice_values@),
        decreases id,
    {
        if sizes.map.contains_key(&id) {
            return ;
        }
        proof {
            assert(dfg@[id as int] == dfg.values@[id as int]@);
        }
        let (contents, typ) = match &dfg.values[id] {
            Value::Array { contents, typ } => (crate::imvec::ivec_clone(contents), typ),
            _ => {
                proof {
                    assert(!(dfg@[id as int] is Array));
                }
                return ;
            },
        };
        proof {
            assert(dfg@[id as int] matches ValueV::Array { typ: tv, .. } && tv == typ@);
        }
        if !typ.contains_slice_element() {
            return ;
        }
        let (elems, is_slice, static_len) = match typ {
            IrType::Slice(elems) => (elems, true, 0usize),
            IrType::Array(elems, n) => (elems, false, *n),
            _ => {
                return ;
            },
        };
        let w = elems.len();
        proof {
            crate::ir::lemma_types_view(elems@);
        }
        if w == 0 {
            return ;
        }
        let n_elems = crate::imvec::ivec_len(&contents);
        let rows = if is_slice {
            n_elems / w
        } else {
            static_len
        };
        proof {
            assert(rows as int == rows_spec(dfg@, id));
        }
        let mut children: Vec<ValueId> = Vec::new();
        let mut k: usize = 0;
        proof {
            assert(value_wf(dfg@, id as int));
        }
        while k < n_elems
            invariant
                values_wf(dfg@),
                id < dfg@.len(),
                dfg@[id as int] matches ValueV::Array { contents: c, .. } && c == crate::imvec::vector_entries(contents),
                crate::imvec::vector_entries(contents).len() == n_elems,
                elems@.len() == w,
                w > 0,
                rows as int == rows_spec(dfg@, id),
                k <= n_elems,
                sizes_wf(sizes, dfg@.len() as int),
                tracker_wf(self, dfg@.len() as int),
                sizes_monotone(old(sizes).map@, sizes.map@),
                self.mapped_slice_values@ == old(self).mapped_slice_values@,
                self.slice_parents@ == old(self).slice_parents@,
                forall|x: ValueId|
                    old(self).slice_values@.contains(x) ==> self.slice_values@.contains(x),
                roots_sound(dfg@, self.slice_values@),
                map_roots_tracked(dfg@, sizes.map@, self.slice_values@),
                constants_len_exact(dfg@, sizes.map@),
                forall|kk: ValueId|
                    #[trigger] sizes.map@.contains_key(kk) && !old(sizes).map@.contains_key(kk)
                        ==> (dfg@[kk as int] is Array),
                forall|kk: ValueId|
                    #[trigger] sizes.map@.contains_key(kk) ==> (old(sizes).map@.contains_key(kk)
                        && sizes.map@[kk] == old(sizes).map@[kk]) || sizes.map@[kk].len
                        <= max_const_rows(dfg@, dfg@.len() as int),
                children_complete(dfg@, sizes.map@),
                roots_recorded(sizes.map@, self.slice_values@),
                forall|kk: int|
                    0 <= kk < k && (types_view(elems@)[kk % w as int] is Slice)
                        ==> children@.contains(#[trigger] crate::imvec::vector_entries(
                        contents,
                    )[kk]),
                forall|j: int| 0 <= j < children@.len() ==> (#[trigger] children@[j]) < dfg@.len(),
            decreases n_elems - k,
        {
            let elem_id = crate::imvec::ivec_get(&contents, k);
            proof {
                assert(value_wf(dfg@, id as int));
                assert(crate::imvec::vector_entries(contents)[k as int] < id as int);
            }
            let col = k % w;
            let ghost ch_pre = children@;
            if elems[col].contains_slice_element() {
                if matches!(&elems[col], IrType::Slice(_)) {
                    children.push(elem_id);
                    proof {
                        assert(children@.last() == elem_id);
                        assert(children@.contains(elem_id));
                    }
                }
                self.compute_slice_sizes(dfg, elem_id, sizes);
            }
            proof {
                crate::ir::lemma_types_view(elems@);
                assert(types_view(elems@)[col as int] == elems@[col as int]@);
                assert forall|kk: int|
                    0 <= kk < k + 1 && (types_view(elems@)[kk % w as int] is Slice)
                        implies children@.contains(#[trigger] crate::imvec::vector_entries(
                    contents,
                )[kk]) by {
                    if kk < k {
                        assert(ch_pre.contains(crate::imvec::vector_entries(contents)[kk]));
                        if ch_pre != children@ {
                            let ix = choose|ix: int|
                                0 <= ix < ch_pre.len() && ch_pre[ix]
                                    == crate::imvec::vector_entries(contents)[kk];
                            assert(children@[ix] == crate::imvec::vector_entries(contents)[kk]);
                        }
                    }
                }
            }
            k += 1;
        }
        // A constant counts as a root to rewrite when it is a slice whose
        // rows themselves hold sequences.
        if is_slice && crate::ir::types_list_contains_slice(elems) {
            proof {
                assert(qualifies_as_root(dfg@, id));
            }
            let ghost sv_pre = self.slice_values@;
            self.slice_values.push(id);
            proof {
                assert(self.slice_values@.last() == id);
                assert(self.slice_values@.contains(id));
                assert forall|x: int|
                    0 <= x < self.slice_values@.len() implies qualifies_as_root(
                    dfg@,
                    #[trigger] self.slice_values@[x],
                ) by {
                    if x < sv_pre.len() {
                        assert(self.slice_values@[x] == sv_pre[x]);
                    }
                }
                assert forall|x: ValueId| sv_pre.contains(x) implies self.slice_values@.contains(
                    x,
                ) by {
                    let ix = choose|ix: int| 0 <= ix < sv_pre.len() && sv_pre[ix] == x;
                    assert(self.slice_values@[ix] == x);
                }
            }
        }
        if !sizes.map.contains_key(&id) {
            let ghost pm = sizes.map@;
            let ghost pk = sizes.keys@;
            let e = SizeEntry { len: rows, children };
            proof {
                lemma_put_wf(pm, pk, id, e, dfg@.len() as int);
                lemma_monotone_insert(pm, id, e);
                lemma_monotone_trans(old(sizes).map@, pm, pm.insert(id, e));
            }
            sizes.put(id, e);
            proof {
                assert forall|a: ValueId|
                    #[trigger] sizes.map@.contains_key(a) && qualifies_as_root(dfg@, a)
                        implies self.slice_values@.contains(a) by {
                    if a != id {
                        assert(pm.contains_key(a));
                    }
                }
                lemma_const_rows_bound(dfg@, id, dfg@.len() as int);
                assert forall|a: ValueId| #[trigger] sizes.map@.contains_key(a) implies (old(
                    sizes,
                ).map@.contains_key(a) && sizes.map@[a] == old(sizes).map@[a]) || sizes.map@[a].len
                    <= max_const_rows(dfg@, dfg@.len() as int) by {
                    if a == id {
                        assert(sizes.map@[a] == e);
                        assert(e.len == rows);
                        assert(rows_spec(dfg@, id) <= max_const_rows(dfg@, dfg@.len() as int));
                        assert(sizes.map@[a].len <= max_const_rows(dfg@, dfg@.len() as int));
                    } else {
                        assert(pm.contains_key(a));
                        assert(sizes.map@[a] == pm[a]);
                        assert((old(sizes).map@.contains_key(a) && pm[a] == old(sizes).map@[a])
                            || pm[a].len <= max_const_rows(dfg@, dfg@.len() as int));
                    }
                }
            }
        }
    }

    /// Observes one instruction: seeds the sizes map from every sequence
    /// constant among its operands, then applies the per-instruction
    /// size-propagation policy.
    ///
    /// The previously recorded maximum of every value stands, no smaller,
    /// afterwards: a recorded bound is never revised downward, not even by
    /// an operation that shrinks a sequence's used length.
    pub fn collect_slice_information(
        &mut self,
        dfg: &DataFlowGraph,
        entry: &InstructionEntry,
        sizes: &mut SliceSizes,
    )
        requires
            values_wf(dfg@),
            entry_wf(dfg@.len() as int, entry@),
            crate::ssa::entry_ordered(entry@),
            forall|k: int|
                0 <= k < entry@.results.len() ==> !((#[trigger] dfg@[entry@.results[k] as int])
                    is Array),
            sizes_wf(old(sizes), dfg@.len() as int),
            tracker_wf(old(self), dfg@.len() as int),
            roots_sound(dfg@, old(self).slice_values@),
            map_roots_tracked(dfg@, old(sizes).map@, old(self).slice_values@),
            constants_len_exact(dfg@, old(sizes).map@),
            children_complete(dfg@, old(sizes).map@),
            roots_recorded(old(sizes).map@, old(self).slice_values@),
        ensures
            sizes_wf(final(sizes), dfg@.len() as int),
            tracker_wf(final(self), dfg@.len() as int),
            sizes_monotone(old(sizes).map@, final(sizes).map@),
            constants_len_exact(dfg@, final(sizes).map@),
            children_complete(dfg@, final(sizes).map@),
            roots_recorded(final(sizes).map@, final(self).slice_values@),
            forall|x: ValueId|
                old(self).slice_values@.contains(x) ==> final(self).slice_values@.contains(x),
            roots_sound(dfg@, final(self).slice_values@),
            map_roots_tracked(dfg@, final(sizes).map@, final(self).slice_values@),
            forall|k: int|
                0 <= k < instr_operands(entry@.instruction).len() && qualifies_as_root(
                    dfg@,
                    #[trigger] instr_operands(entry@.instruction)[k],
                ) ==> final(self).slice_values@.contains(instr_operands(entry@.instruction)[k]),
            !(entry@.instruction is ArraySet) && !is_intrinsic_call(dfg@, entry@)
                ==> final(self).mapped_slice_values@ == old(self).mapped_slice_values@
                    && final(self).slice_parents@ == old(self).slice_parents@,
            forall|k: ValueId|
                #[trigger] final(sizes).map@.contains_key(k) ==> final(sizes).map@[k].len
                    <= max_const_rows(dfg@, dfg@.len() as int) + (if is_pushback(dfg@, entry@) {
                    1int
                } else {
                    0int
                }) || (exists|k2: ValueId|
                    #[trigger] old(sizes).map@.contains_key(k2) && final(sizes).map@[k].len <= old(
                    sizes,
                ).map@[k2].len + (if is_pushback(dfg@, entry@) {
                    1int
                } else {
                    0int
                })),
            old(sizes).map@ == Map::<ValueId, SizeEntry>::empty() && (forall|k: int|
                0 <= k < instr_operands(entry@.instruction).len() ==> !((#[trigger] dfg@[
                instr_operands(entry@.instruction)[k] as int]) is Array)) ==> final(sizes).map@
                == old(sizes).map@ && final(self).slice_values@ == old(self).slice_values@
                && final(self).mapped_slice_values@ == old(self).mapped_slice_values@
                && final(self).slice_parents@ == old(self).slice_parents@,
            match entry@.instruction {
                InstructionV::ArraySet { array, .. } => final(sizes).map@.contains_key(array)
                    && entry@.results.len() >= 1
                    ==> final(self).mapped_slice_values@.contains_key(array)
                        && final(self).mapped_slice_values@[array] == entry@.results[0]
                        && final(self).slice_parents@.contains_key(entry@.results[0])
                        && final(self).slice_parents@[entry@.results[0]] == array,
                _ => true,
            },
            match entry@.instruction {
                InstructionV::ArrayGet { array, .. } => final(sizes).map@.contains_key(array)
                    && entry@.results.len() >= 1 && crate::ir::contains_slice(
                    crate::ssa::value_typ(dfg@[entry@.results[0] as int]),
                ) ==> final(sizes).map@.contains_key(entry@.results[0]),
                _ => true,
            },
            match entry@.instruction {
                InstructionV::Call { func, arguments } => match dfg@[func as int] {
                    ValueV::Intrinsic { op, .. } => arguments.len() >= 1 && entry@.results.len()
                        >= 1 && final(sizes).map@.contains_key(arguments[0]) && !old(
                        sizes,
                    ).map@.contains_key(entry@.results[0]) ==> {
                        let alen = final(sizes).map@[arguments[0]].len;
                        &&& final(sizes).map@.contains_key(entry@.results[0])
                        &&& final(sizes).map@[entry@.results[0]].len == (match op {
                            IntrinsicOp::SlicePushBack => if alen == usize::MAX {
                                usize::MAX
                            } else {
                                (alen + 1) as usize
                            },
                            IntrinsicOp::SlicePopBack => alen,
                        })
                    },
                    _ => true,
                },
                _ => true,
            },
    {
        let ghost n = dfg@.len() as int;
        let ops = entry.instruction.operands();
        let mut i: usize = 0;
        while i < ops.len()
            invariant
                values_wf(dfg@),
                n == dfg@.len() as int,
                ops@ == instr_operands(entry.instruction@),
                entry_wf(n, entry@),
                crate::ssa::entry_ordered(entry@),
                i <= ops@.len(),
                sizes_wf(sizes, n),
                tracker_wf(self, n),
                sizes_monotone(old(sizes).map@, sizes.map@),
                forall|x: ValueId|
                    old(self).slice_values@.contains(x) ==> self.slice_values@.contains(x),
                roots_sound(dfg@, self.slice_values@),
                map_roots_tracked(dfg@, sizes.map@, self.slice_values@),
                constants_len_exact(dfg@, sizes.map@),
                forall|kk: ValueId|
                    #[trigger] sizes.map@.contains_key(kk) && !old(sizes).map@.contains_key(kk)
                        ==> (dfg@[kk as int] is Array),
                self.mapped_slice_values@ == old(self).mapped_slice_values@,
                self.slice_parents@ == old(self).slice_parents@,
                forall|kk: ValueId|
                    #[trigger] sizes.map@.contains_key(kk) ==> sizes.map@[kk].len
                        <= max_const_rows(dfg@, dfg@.len() as int) || (old(
                        sizes,
                    ).map@.contains_key(kk) && sizes.map@[kk].len <= old(sizes).map@[kk].len),
                children_complete(dfg@, sizes.map@),
                roots_recorded(sizes.map@, self.slice_values@),
                (old(sizes).map@ == Map::<ValueId, SizeEntry>::empty() && (forall|kk: int|
                    0 <= kk < ops@.len() ==> !((#[trigger] dfg@[ops@[kk] as int]) is Array)))
                    ==> sizes.map@ == old(sizes).map@ && self.slice_values@ == old(
                    self,
                ).slice_values@,
                forall|kk: int|
                    0 <= kk < i && qualifies_as_root(dfg@, #[trigger] ops@[kk])
                        ==> self.slice_values@.contains(ops@[kk]),
            decreases ops@.len() - i,
        {
            let op = ops[i];
            proof {
                assert(instr_operands(entry.instruction@)[i as int] < n);
            }
            let ghost pre = sizes.map@;
            let ghost sv_pre = self.slice_values@;
            self.compute_slice_sizes(dfg, op, sizes);
            proof {
                lemma_monotone_trans(old(sizes).map@, pre, sizes.map@);
                assert forall|kk: int|
                    0 <= kk < i + 1 && qualifies_as_root(dfg@, #[trigger] ops@[kk])
                        implies self.slice_values@.contains(ops@[kk]) by {
                    if kk < i {
                        assert(sv_pre.contains(ops@[kk]));
                    }
                }
            }
            i += 1;
        }
        match &entry.instruction {
            Instruction::ArrayGet { array, .. } => {
                if entry.results.len() >= 1 {
                    let r = entry.results[0];
                    proof {
                        assert(entry@.results[0] == r);
                        assert(r < n);
                        assert(instr_operands(entry.instruction@)[0] == *array);
                    }
                    if dfg.type_of_value(r).contains_slice_element() {
                        let got = match sizes.map.get(array) {
                            Some(e) => Some(copy_ids(&e.children)),
                            None => None,
                        };
                        if let Some(achildren) = got {
                            // The fetched element aliases the sequence's
                            // backing store: hand it the same child set and
                            // record it as a possible child in turn.
                            if !sizes.map.contains_key(&r) {
                                let ghost pm = sizes.map@;
                                let e = SizeEntry { len: 0, children: achildren };
                                proof {
                                    lemma_put_wf(pm, sizes.keys@, r, e, n);
                                    lemma_monotone_insert(pm, r, e);
                                    lemma_monotone_trans(old(sizes).map@, pm, pm.insert(r, e));
                                }
                                sizes.put(r, e);
                            }
                            let refreshed = match sizes.map.get(array) {
                                Some(e) => Some((e.len, copy_ids(&e.children))),
                                None => None,
                            };
                            if let Some((alen, mut c2)) = refreshed {
                                let ghost ch_pre = c2@;
                                c2.push(r);
                                let ghost pm = sizes.map@;
                                let e = SizeEntry { len: alen, children: c2 };
                                proof {
                                    lemma_put_wf(pm, sizes.keys@, *array, e, n);
                                    lemma_monotone_insert(pm, *array, e);
                                    lemma_monotone_trans(old(sizes).map@, pm, pm.insert(*array, e));
                                }
                                sizes.put(*array, e);
                                proof {
                                    assert forall|a2: ValueId, kq: int|
                                        #[trigger] sizes.map@.contains_key(a2)
                                            && #[trigger] slice_content_at(dfg@, a2, kq)
                                            implies sizes.map@[a2].children@.contains(
                                        content_at(dfg@, a2, kq),
                                    ) by {
                                        if a2 == *array {
                                            assert(pm.contains_key(a2));
                                            assert(pm[a2].children@.contains(
                                                content_at(dfg@, a2, kq),
                                            ));
                                            let ix = choose|ix: int|
                                                0 <= ix < pm[a2].children@.len()
                                                    && pm[a2].children@[ix] == content_at(
                                                    dfg@,
                                                    a2,
                                                    kq,
                                                );
                                            assert(ch_pre == pm[a2].children@);
                                            assert(sizes.map@[a2].children@[ix] == content_at(
                                                dfg@,
                                                a2,
                                                kq,
                                            ));
                                        } else {
                                            assert(pm.contains_key(a2));
                                            assert(sizes.map@[a2] == pm[a2]);
                                        }
                                    }
                                }
                            }
                        }
                    }
                }
            },
            Instruction::ArraySet { array, value, .. } => {
                if entry.results.len() >= 1 {
                    let r = entry.results[0];
                    proof {
                        assert(entry@.results[0] == r);
                        assert(r < n);
                        assert(instr_operands(entry.instruction@)[0] == *array);
                        assert(instr_operands(entry.instruction@)[2] == *value);
                        assert(*array < r);
                    }
                    let got = match sizes.map.get(array) {
                        Some(e) => Some((e.len, copy_ids(&e.children))),
                        None => None,
                    };
                    if let Some((alen, mut achildren)) = got {
                        self.link(*array, r, Ghost(n));
                        // The written value aliases a row of the result.
                        if dfg.type_of_value(*value).contains_slice_element() {
                            achildren.push(*value);
                        }
                        if !sizes.map.contains_key(&r) {
                            let ghost pm = sizes.map@;
                            let e = SizeEntry { len: alen, children: achildren };
                            proof {
                                lemma_put_wf(pm, sizes.keys@, r, e, n);
                                lemma_monotone_insert(pm, r, e);
                                lemma_monotone_trans(old(sizes).map@, pm, pm.insert(r, e));
                            }
                            sizes.put(r, e);
                        }
                    }
                }
            },
            Instruction::Call { func, arguments } => {
                proof {
                    assert(instr_operands(entry.instruction@)[0] == *func);
                }
                let intr = match &dfg.values[*func] {
                    Value::Intrinsic { op, .. } => Some(*op),
                    _ => None,
                };
                if let Some(op) = intr {
                    if arguments.len() >= 1 && entry.results.len() >= 1 {
                        let arg = arguments[0];
                        let r = entry.results[0];
                        proof {
                            assert(instr_operands(entry.instruction@)[1] == arguments@[0]);
                            assert(entry@.results[0] == r);
                        assert(r < n);
                            assert(arg < r);
                        }
                        let got = match sizes.map.get(&arg) {
                            Some(e) => Some((e.len, copy_ids(&e.children))),
                            None => None,
                        };
                        if let Some((alen, mut achildren)) = got {
                            self.link(arg, r, Ghost(n));
                            // A size-increasing intrinsic bumps the bound;
                            // a size-decreasing one keeps it as recorded.
                            let new_len = match op {
                                IntrinsicOp::SlicePushBack => {
                                    match alen.checked_add(1) {
                                        Some(x) => x,
                                        None => alen,
                                    }
                                },
                                IntrinsicOp::SlicePopBack => alen,
                            };
                            if matches!(op, IntrinsicOp::SlicePushBack) && arguments.len() >= 2 {
                                let pushed = arguments[1];
                                proof {
                                    assert(instr_operands(entry.instruction@)[2]
                                        == arguments@[1]);
                                }
                                if dfg.type_of_value(pushed).contains_slice_element() {
                                    achildren.push(pushed);
                                }
                            }
                            if !sizes.map.contains_key(&r) {
                                let ghost pm = sizes.map@;
                                let e = SizeEntry { len: new_len, children: achildren };
                                proof {
                                    lemma_put_wf(pm, sizes.keys@, r, e, n);
                                    lemma_monotone_insert(pm, r, e);
                                    lemma_monotone_trans(old(sizes).map@, pm, pm.insert(r, e));
                                }
                                sizes.put(r, e);
                            }
                        }
                    }
                }
            },
            _ => {},
        }
    }

    /// Links a rewritten sequence identity forward from its original and
    /// backward to it.
    fn link(&mut self, original: ValueId, derived: ValueId, Ghost(n): Ghost<int>)
        requires
            tracker_wf(old(self), n),
            original < derived,
            derived < n,
        ensures
            tracker_wf(final(self), n),
            final(self).mapped_slice_values@ == old(self).mapped_slice_values@.insert(
                original,
                derived,
            ),
            final(self).slice_parents@ == old(self).slice_parents@.insert(derived, original),
            final(self).slice_values@ == old(self).slice_values@,
    {
        self.mapped_slice_values.insert(original, derived);
        self.slice_parents.insert(derived, original);
        proof {
            assert forall|k: ValueId| #[trigger]
                self.mapped_slice_values@.contains_key(k) implies k
                < self.mapped_slice_values@[k] && self.mapped_slice_values@[k] < n by {
                if k != original {
                    assert(old(self).mapped_slice_values@.contains_key(k));
                }
            }
            assert forall|k: ValueId| #[trigger] self.slice_parents@.contains_key(k) implies self
                .slice_parents@[k] < k && k < n by {
                if k != derived {
                    assert(old(self).slice_parents@.contains_key(k));
                }
            }
        }
    }
}

} // verus!
