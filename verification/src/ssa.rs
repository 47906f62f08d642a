//! SSA form: values, instructions, blocks, functions, and the data flow
//! graph holding them.  Value ids are indices into the graph's value list;
//! a well-formed graph only ever lets a composite value point at values
//! defined strictly before it.

use crate::imvec::vector_entries;
use crate::ir::IrType;
use crate::ir::TypeV;
use vstd::prelude::*;

verus! {

/// Identity of an SSA value: its index in the data flow graph's value list.
pub type ValueId = usize;

/// The compilation target of a function.  Only functions targeting the
/// circuit-generating runtime are rewritten by the fill pass.
#[derive(Clone, Copy, PartialEq, Eq, Structural, Debug)]
pub enum RuntimeType {
    Acir,
    Brillig,
}

/// A slice intrinsic that changes the size of a sequence.
#[derive(Clone, Copy, PartialEq, Eq, Structural, Debug)]
pub enum IntrinsicOp {
    /// Appends one row at the back: the result is one row longer.
    SlicePushBack,
    /// Removes one row at the back: the recorded bound never shrinks.
    SlicePopBack,
}

/// An SSA value.
pub enum Value {
    /// A function parameter.
    Param { typ: IrType },
    /// A numeric constant.
    NumericConstant { constant: u128, typ: IrType },
    /// A concrete sequence: an ordered group of previously defined values.
    Array { contents: im::Vector<usize>, typ: IrType },
    /// The result of an instruction.
    InstructionResult { typ: IrType },
    /// A slice intrinsic usable as a call target.
    Intrinsic { op: IntrinsicOp, typ: IrType },
    /// A plain function usable as a call target.
    Function { id: u32, typ: IrType },
}

/// Specification-level mirror of [`Value`].
pub ghost enum ValueV {
    Param { typ: TypeV },
    NumericConstant { constant: u128, typ: TypeV },
    Array { contents: Seq<usize>, typ: TypeV },
    InstructionResult { typ: TypeV },
    Intrinsic { op: IntrinsicOp, typ: TypeV },
    Function { id: u32, typ: TypeV },
}

impl View for Value {
    type V = ValueV;

    open spec fn view(&self) -> ValueV {
        match self {
            Value::Param { typ } => ValueV::Param { typ: typ@ },
            Value::NumericConstant { constant, typ } => ValueV::NumericConstant {
                constant: *constant,
                typ: typ@,
            },
            Value::Array { contents, typ } => ValueV::Array {
                contents: vector_entries(*contents),
                typ: typ@,
            },
            Value::InstructionResult { typ } => ValueV::InstructionResult { typ: typ@ },
            Value::Intrinsic { op, typ } => ValueV::Intrinsic { op: *op, typ: typ@ },
            Value::Function { id, typ } => ValueV::Function { id: *id, typ: typ@ },
        }
    }
}

/// The static type a value carries.
pub open spec fn value_typ(v: ValueV) -> TypeV {
    match v {
        ValueV::Param { typ } => typ,
        ValueV::NumericConstant { typ, .. } => typ,
        ValueV::Array { typ, .. } => typ,
        ValueV::InstructionResult { typ } => typ,
        ValueV::Intrinsic { typ, .. } => typ,
        ValueV::Function { typ, .. } => typ,
    }
}

/// An instruction of the single block the fill pass rewrites.  Anything that
/// is not an array operation or a call is inert for the pass and is copied
/// through unchanged.
pub enum Instruction {
    /// Reads the element of `array` at `index`.
    ArrayGet { array: ValueId, index: ValueId },
    /// Writes `value` at `index`; the result is a new sequence identity.
    ArraySet { array: ValueId, index: ValueId, value: ValueId },
    /// Calls `func` (a function or intrinsic value) on `arguments`.
    Call { func: ValueId, arguments: Vec<ValueId> },
    /// A binary operation on two scalars.
    Binary { lhs: ValueId, op: BinaryOp, rhs: ValueId },
    /// Constrains two values to be equal, with an optional failure message.
    Constrain { lhs: ValueId, rhs: ValueId, message: Option<String> },
}

/// Operator of a binary instruction.
#[derive(Clone, Copy, PartialEq, Eq, Structural, Debug)]
pub enum BinaryOp {
    Add,
    Sub,
    Mul,
    Div,
    Eq,
    Lt,
}

/// Specification-level mirror of [`Instruction`].
pub ghost enum InstructionV {
    ArrayGet { array: usize, index: usize },
    ArraySet { array: usize, index: usize, value: usize },
    Call { func: usize, arguments: Seq<usize> },
    Binary { lhs: usize, op: BinaryOp, rhs: usize },
    Constrain { lhs: usize, rhs: usize, message: Option<Seq<char>> },
}

impl View for Instruction {
    type V = InstructionV;

    open spec fn view(&self) -> InstructionV {
        match self {
            Instruction::ArrayGet { array, index } => InstructionV::ArrayGet {
                array: *array,
                index: *index,
            },
            Instruction::ArraySet { array, index, value } => InstructionV::ArraySet {
                array: *array,
                index: *index,
                value: *value,
            },
            Instruction::Call { func, arguments } => InstructionV::Call {
                func: *func,
                arguments: arguments@,
            },
            Instruction::Binary { lhs, op, rhs } => InstructionV::Binary {
                lhs: *lhs,
                op: *op,
                rhs: *rhs,
            },
            Instruction::Constrain { lhs, rhs, message } => InstructionV::Constrain {
                lhs: *lhs,
                rhs: *rhs,
                message: match message {
                    Some(m) => Some(m@),
                    None => None,
                },
            },
        }
    }
}

/// The values an instruction reads.
pub open spec fn instr_operands(i: InstructionV) -> Seq<usize> {
    match i {
        InstructionV::ArrayGet { array, index } => seq![array, index],
        InstructionV::ArraySet { array, index, value } => seq![array, index, value],
        InstructionV::Call { func, arguments } => seq![func] + arguments,
        InstructionV::Binary { lhs, rhs, .. } => seq![lhs, rhs],
        InstructionV::Constrain { lhs, rhs, .. } => seq![lhs, rhs],
    }
}

/// One instruction of a block, together with the values holding its results
/// and an opaque provenance tag for diagnostics.
pub struct InstructionEntry {
    pub instruction: Instruction,
    pub results: Vec<ValueId>,
    pub call_stack: u32,
}

/// Specification-level mirror of [`InstructionEntry`].
pub ghost struct EntryV {
    pub instruction: InstructionV,
    pub results: Seq<usize>,
    pub call_stack: u32,
}

impl View for InstructionEntry {
    type V = EntryV;

    open spec fn view(&self) -> EntryV {
        EntryV { instruction: self.instruction@, results: self.results@, call_stack: self.call_stack }
    }
}

/// A basic block: an instruction list and the operands of its terminator.
pub struct Block {
    pub instructions: Vec<InstructionEntry>,
    pub terminator_args: Vec<ValueId>,
}

/// View of a sequence of instruction entries.
pub open spec fn entries_view(es: Seq<InstructionEntry>) -> Seq<EntryV> {
    es.map_values(|e: InstructionEntry| e@)
}

/// The value store of a function.
pub struct DataFlowGraph {
    pub values: Vec<Value>,
}

/// View of a sequence of values.
pub open spec fn values_view(vs: Seq<Value>) -> Seq<ValueV> {
    vs.map_values(|v: Value| v@)
}

impl View for DataFlowGraph {
    type V = Seq<ValueV>;

    open spec fn view(&self) -> Seq<ValueV> {
        values_view(self.values@)
    }
}

/// An SSA function: its blocks, its value store, and the external-I/O
/// descriptor listing the values carried over the data bus.
pub struct Function {
    pub name: String,
    pub runtime: RuntimeType,
    pub blocks: Vec<Block>,
    pub dfg: DataFlowGraph,
    pub databus: Vec<ValueId>,
}

/// A whole program in SSA form.
pub struct Ssa {
    pub functions: Vec<Function>,
}

/// A single value is well formed: a sequence only points at values defined
/// strictly before it.
pub open spec fn value_wf(vs: Seq<ValueV>, i: int) -> bool {
    match vs[i] {
        ValueV::Array { contents, .. } => forall|k: int|
            0 <= k < contents.len() ==> (#[trigger] contents[k]) < i,
        _ => true,
    }
}

/// Every value of the graph is well formed.
pub open spec fn values_wf(vs: Seq<ValueV>) -> bool {
    forall|i: int| 0 <= i < vs.len() ==> value_wf(vs, i)
}

/// An instruction entry is well formed: its operands and results are defined
/// values.
pub open spec fn entry_wf(n_values: int, e: EntryV) -> bool {
    let ops = instr_operands(e.instruction);
    &&& forall|k: int| 0 <= k < ops.len() ==> (#[trigger] ops[k]) < n_values
    &&& forall|k: int| 0 <= k < e.results.len() ==> (#[trigger] e.results[k]) < n_values
}

/// Bounds on an entry's ids carry over to any larger value store.
pub proof fn lemma_entry_wf_mono(n1: int, n2: int, e: EntryV)
    requires
        entry_wf(n1, e),
        n1 <= n2,
    ensures
        entry_wf(n2, e),
{
    let ops = instr_operands(e.instruction);
    assert forall|k: int| 0 <= k < ops.len() implies (#[trigger] ops[k]) < n2 by {
        assert(ops[k] < n1);
    }
    assert forall|k: int| 0 <= k < e.results.len() implies (#[trigger] e.results[k]) < n2 by {
        assert(e.results[k] < n1);
    }
}

/// An instruction entry respects definition order: every result is defined
/// after every operand.  This holds of the SSA form the pass consumes.
pub open spec fn entry_ordered(e: EntryV) -> bool {
    let ops = instr_operands(e.instruction);
    forall|k: int, m: int|
        0 <= k < ops.len() && 0 <= m < e.results.len() ==> (#[trigger] ops[k]) < (
        #[trigger] e.results[m])
}

/// No instruction result of the block names a concrete sequence constant:
/// results are fresh instruction values.  This holds of the SSA form the
/// pass consumes.
pub open spec fn block_results_fresh(vs: Seq<ValueV>, b: &Block) -> bool {
    forall|i: int, k: int|
        0 <= i < b.instructions@.len() && 0 <= k < b.instructions@[i]@.results.len() ==> !((
        #[trigger] vs[b.instructions@[i]@.results[k] as int]) is Array) || b.instructions@[i]@.results[k] >= vs.len()
}

/// See [`block_results_fresh`], for every block of the function.
pub open spec fn function_results_fresh(f: &Function) -> bool {
    forall|i: int| 0 <= i < f.blocks@.len() ==> block_results_fresh(f.dfg@, #[trigger] &f.blocks@[i])
}

/// See [`block_results_fresh`], for every function of the program.
pub open spec fn ssa_results_fresh(s: &Ssa) -> bool {
    forall|i: int| 0 <= i < s.functions@.len() ==> function_results_fresh(#[trigger] &s.functions@[i])
}

/// Every instruction of the block respects definition order.
pub open spec fn block_ordered(b: &Block) -> bool {
    forall|i: int|
        0 <= i < b.instructions@.len() ==> entry_ordered(#[trigger] b.instructions@[i]@)
}

/// Every block of the function respects definition order.
pub open spec fn function_ordered(f: &Function) -> bool {
    forall|i: int| 0 <= i < f.blocks@.len() ==> block_ordered(#[trigger] &f.blocks@[i])
}

/// Every function of the program respects definition order.
pub open spec fn ssa_ordered(s: &Ssa) -> bool {
    forall|i: int| 0 <= i < s.functions@.len() ==> function_ordered(#[trigger] &s.functions@[i])
}

/// A block is well formed with respect to a value store of the given size.
pub open spec fn block_wf(n_values: int, b: &Block) -> bool {
    &&& forall|i: int|
        0 <= i < b.instructions@.len() ==> entry_wf(n_values, #[trigger] b.instructions@[i]@)
    &&& forall|i: int|
        0 <= i < b.terminator_args@.len() ==> (#[trigger] b.terminator_args@[i]) < n_values
}

/// A function is well formed.
pub open spec fn function_wf(f: &Function) -> bool {
    &&& values_wf(f.dfg@)
    &&& forall|i: int| 0 <= i < f.blocks@.len() ==> block_wf(f.dfg@.len() as int, #[trigger] &f.blocks@[i])
    &&& forall|i: int| 0 <= i < f.databus@.len() ==> (#[trigger] f.databus@[i]) < f.dfg@.len()
}

/// A program is well formed.
pub open spec fn ssa_wf(s: &Ssa) -> bool {
    forall|i: int| 0 <= i < s.functions@.len() ==> function_wf(#[trigger] &s.functions@[i])
}

/// Copies a list of value ids.
pub fn copy_ids(v: &Vec<ValueId>) -> (r: Vec<ValueId>)
    ensures
        r@ == v@,
{
    let mut out: Vec<ValueId> = Vec::new();
    let mut i: usize = 0;
    while i < v.len()
        invariant
            i <= v@.len(),
            out@ == v@.subrange(0, i as int),
        decreases v@.len() - i,
    {
        out.push(v[i]);
        i += 1;
    }
    proof {
        assert(out@ =~= v@);
    }
    out
}

/// Whether a list of value ids holds the given id.
pub fn ids_contain(v: &Vec<ValueId>, x: ValueId) -> (r: bool)
    ensures
        r == v@.contains(x),
{
    let mut i: usize = 0;
    while i < v.len()
        invariant
            i <= v@.len(),
            forall|j: int| 0 <= j < i ==> v@[j] != x,
        decreases v@.len() - i,
    {
        if v[i] == x {
            return true;
        }
        i += 1;
    }
    false
}

impl InstructionEntry {
    /// Structural copy of an instruction entry.
    pub fn deep_clone(&self) -> (r: InstructionEntry)
        ensures
            r@ == self@,
    {
        InstructionEntry {
            instruction: self.instruction.deep_clone(),
            results: copy_ids(&self.results),
            call_stack: self.call_stack,
        }
    }
}

impl Instruction {
    /// Structural copy of an instruction.
    pub fn deep_clone(&self) -> (r: Instruction)
        ensures
            r@ == self@,
    {
        match self {
            Instruction::ArrayGet { array, index } => Instruction::ArrayGet {
                array: *array,
                index: *index,
            },
            Instruction::ArraySet { array, index, value } => Instruction::ArraySet {
                array: *array,
                index: *index,
                value: *value,
            },
            Instruction::Call { func, arguments } => Instruction::Call {
                func: *func,
                arguments: copy_ids(arguments),
            },
            Instruction::Binary { lhs, op, rhs } => Instruction::Binary {
                lhs: *lhs,
                op: *op,
                rhs: *rhs,
            },
            Instruction::Constrain { lhs, rhs, message } => Instruction::Constrain {
                lhs: *lhs,
                rhs: *rhs,
                message: match message {
                    Some(m) => Some(m.clone()),
                    None => None,
                },
            },
        }
    }

    /// The values this instruction reads, in operand order.
    pub fn operands(&self) -> (r: Vec<ValueId>)
        ensures
            r@ == instr_operands(self@),
    {
        match self {
            Instruction::ArrayGet { array, index } => {
                let mut v: Vec<ValueId> = Vec::new();
                v.push(*array);
                v.push(*index);
                proof {
                    assert(v@ =~= instr_operands(self@));
                }
                v
            },
            Instruction::ArraySet { array, index, value } => {
                let mut v: Vec<ValueId> = Vec::new();
                v.push(*array);
                v.push(*index);
                v.push(*value);
                proof {
                    assert(v@ =~= instr_operands(self@));
                }
                v
            },
            Instruction::Call { func, arguments } => {
                let mut v: Vec<ValueId> = Vec::new();
                v.push(*func);
                let mut i: usize = 0;
                while i < arguments.len()
                    invariant
                        i <= arguments@.len(),
                        v@ == seq![self->Call_func] + arguments@.subrange(0, i as int),
                        self matches Instruction::Call { arguments: a, .. } && a@ == arguments@,
                    decreases arguments@.len() - i,
                {
                    v.push(arguments[i]);
                    proof {
                        assert(v@ =~= seq![self->Call_func] + arguments@.subrange(0, i + 1));
                    }
                    i += 1;
                }
                proof {
                    assert(arguments@.subrange(0, arguments@.len() as int) =~= arguments@);
                    assert(v@ =~= instr_operands(self@));
                }
                v
            },
            Instruction::Binary { lhs, rhs, .. } => {
                let mut v: Vec<ValueId> = Vec::new();
                v.push(*lhs);
                v.push(*rhs);
                proof {
                    assert(v@ =~= instr_operands(self@));
                }
                v
            },
            Instruction::Constrain { lhs, rhs, .. } => {
                let mut v: Vec<ValueId> = Vec::new();
                v.push(*lhs);
                v.push(*rhs);
                proof {
                    assert(v@ =~= instr_operands(self@));
                }
                v
            },
        }
    }
}

impl DataFlowGraph {
    /// Creates an empty value store.
    pub fn new() -> (r: DataFlowGraph)
        ensures
            r@ == Seq::<ValueV>::empty(),
    {
        let r = DataFlowGraph { values: Vec::new() };
        proof {
            assert(r@ =~= Seq::<ValueV>::empty());
        }
        r
    }

    /// Defines a fresh numeric constant and returns its identity.
    pub fn make_constant(&mut self, constant: u128) -> (r: ValueId)
        ensures
            final(self)@ == old(self)@.push(
                ValueV::NumericConstant { constant, typ: TypeV::Numeric },
            ),
            r == old(self)@.len(),
    {
        let id = self.values.len();
        self.values.push(Value::NumericConstant { constant, typ: IrType::Numeric });
        proof {
            assert(self@ =~= old(self)@.push(
                ValueV::NumericConstant { constant, typ: TypeV::Numeric },
            ));
        }
        id
    }

    /// Defines a fresh concrete sequence value and returns its identity.
    pub fn make_array(&mut self, contents: im::Vector<usize>, typ: IrType) -> (r: ValueId)
        ensures
            final(self)@ == old(self)@.push(
                ValueV::Array { contents: vector_entries(contents), typ: typ@ },
            ),
            r == old(self)@.len(),
    {
        let ghost entries = vector_entries(contents);
        let ghost tv = typ@;
        let id = self.values.len();
        self.values.push(Value::Array { contents, typ });
        proof {
            assert(self@ =~= old(self)@.push(ValueV::Array { contents: entries, typ: tv }));
        }
        id
    }

    /// The number of defined values.
    pub fn len(&self) -> (r: usize)
        ensures
            r == self@.len(),
    {
        self.values.len()
    }

    /// The static type of a defined value.
    pub fn type_of_value(&self, id: ValueId) -> (r: &IrType)
        requires
            id < self@.len(),
        ensures
            r@ == value_typ(self@[id as int]),
    {
        match &self.values[id] {
            Value::Param { typ } => typ,
            Value::NumericConstant { typ, .. } => typ,
            Value::Array { typ, .. } => typ,
            Value::InstructionResult { typ } => typ,
            Value::Intrinsic { typ, .. } => typ,
            Value::Function { typ, .. } => typ,
        }
    }

    /// The contents and type of a concrete sequence value, if the value is
    /// one.
    pub fn get_array_constant(&self, id: ValueId) -> (r: Option<(im::Vector<usize>, IrType)>)
        requires
            id < self@.len(),
        ensures
            match r {
                Some((contents, typ)) => self@[id as int] matches ValueV::Array {
                    contents: c,
                    typ: t,
                } && vector_entries(contents) == c && typ@ == t,
                None => !(self@[id as int] is Array),
            },
    {
        match &self.values[id] {
            Value::Array { contents, typ } => Some(
                (crate::imvec::ivec_clone(contents), typ.deep_clone()),
            ),
            _ => None,
        }
    }

    /// The numeric constant a value holds, if it is one.
    pub fn get_numeric_constant(&self, id: ValueId) -> (r: Option<u128>)
        requires
            id < self@.len(),
        ensures
            match r {
                Some(c) => self@[id as int] matches ValueV::NumericConstant {
                    constant: c2,
                    ..
                } && c == c2,
                None => !(self@[id as int] is NumericConstant),
            },
    {
        match &self.values[id] {
            Value::NumericConstant { constant, .. } => Some(*constant),
            _ => None,
        }
    }
}

} // verus!
