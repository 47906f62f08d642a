//! Builds a well-formed single-entry SSA function value by value and
//! instruction by instruction, for handing to the passes.

use crate::imvec::vector_entries;
use crate::ir::IrType;
use crate::ssa::entry_ordered;
use crate::ssa::entry_wf;
use crate::ssa::instr_operands;
use crate::ssa::values_wf;
use crate::ssa::BinaryOp;
use crate::ssa::Block;
use crate::ssa::DataFlowGraph;
use crate::ssa::Function;
use crate::ssa::Instruction;
use crate::ssa::InstructionEntry;
use crate::ssa::InstructionV;
use crate::ssa::IntrinsicOp;
use crate::ssa::RuntimeType;
use crate::ssa::Ssa;
use crate::ssa::Value;
use crate::ssa::ValueId;
use crate::ssa::ValueV;
use vstd::prelude::*;

verus! {

/// Accumulates one function: its value store, the entry block's
/// instructions, and any further (empty) blocks.
pub struct FunctionBuilder {
    pub name: String,
    pub runtime: RuntimeType,
    pub dfg: DataFlowGraph,
    pub instructions: Vec<InstructionEntry>,
    pub terminator_args: Vec<ValueId>,
    pub extra_blocks: usize,
    pub databus: Vec<ValueId>,
}

/// Everything accumulated so far is well formed and in definition order,
/// and every instruction result is a fresh instruction value.
pub open spec fn builder_wf(b: &FunctionBuilder) -> bool {
    &&& values_wf(b.dfg@)
    &&& forall|i: int|
        0 <= i < b.instructions@.len() ==> entry_wf(
            b.dfg@.len() as int,
            #[trigger] b.instructions@[i]@,
        ) && entry_ordered(b.instructions@[i]@)
    &&& forall|i: int, k: int|
        0 <= i < b.instructions@.len() && 0 <= k < b.instructions@[i]@.results.len() ==> !((
        #[trigger] b.dfg@[b.instructions@[i]@.results[k] as int]) is Array)
    &&& forall|i: int|
        0 <= i < b.terminator_args@.len() ==> (#[trigger] b.terminator_args@[i]) < b.dfg@.len()
    &&& forall|i: int| 0 <= i < b.databus@.len() ==> (#[trigger] b.databus@[i]) < b.dfg@.len()
}

impl FunctionBuilder {
    /// Starts a fresh function of the given name and runtime.
    pub fn new(name: String, runtime: RuntimeType) -> (r: FunctionBuilder)
        ensures
            builder_wf(&r),
            r.dfg@.len() == 0,
    {
        let r = FunctionBuilder {
            name,
            runtime,
            dfg: DataFlowGraph::new(),
            instructions: Vec::new(),
            terminator_args: Vec::new(),
            extra_blocks: 0,
            databus: Vec::new(),
        };
        r
    }

    /// Adds a function parameter of the given type.
    pub fn add_parameter(&mut self, typ: IrType) -> (r: ValueId)
        requires
            builder_wf(old(self)),
        ensures
            builder_wf(final(self)),
            final(self).dfg@.len() == old(self).dfg@.len() + 1,
            r == old(self).dfg@.len(),
            final(self).dfg@[r as int] == (ValueV::Param { typ: typ@ }),
    {
        let id = self.dfg.values.len();
        let ghost tv = typ@;
        self.dfg.values.push(Value::Param { typ });
        proof {
            lemma_builder_push_value(old(self), self);
        }
        id
    }

    /// Defines a numeric constant of the base field.
    pub fn field_constant(&mut self, constant: u128) -> (r: ValueId)
        requires
            builder_wf(old(self)),
        ensures
            builder_wf(final(self)),
            final(self).dfg@.len() == old(self).dfg@.len() + 1,
            r == old(self).dfg@.len(),
            final(self).dfg@[r as int] == (ValueV::NumericConstant {
                constant,
                typ: crate::ir::TypeV::Numeric,
            }),
    {
        let id = self.dfg.make_constant(constant);
        proof {
            lemma_builder_push_value(old(self), self);
        }
        id
    }

    /// Defines a concrete sequence value over previously defined values.
    pub fn array_constant(&mut self, contents: im::Vector<usize>, typ: IrType) -> (r: ValueId)
        requires
            builder_wf(old(self)),
            forall|k: int|
                0 <= k < vector_entries(contents).len() ==> (#[trigger] vector_entries(
                    contents,
                )[k]) < old(self).dfg@.len(),
        ensures
            builder_wf(final(self)),
            final(self).dfg@.len() == old(self).dfg@.len() + 1,
            r == old(self).dfg@.len(),
            final(self).dfg@[r as int] == (ValueV::Array {
                contents: vector_entries(contents),
                typ: typ@,
            }),
    {
        let id = self.dfg.make_array(contents, typ);
        proof {
            lemma_builder_push_value(old(self), self);
        }
        id
    }

    /// Defines a slice intrinsic usable as a call target.
    pub fn intrinsic_value(&mut self, op: IntrinsicOp) -> (r: ValueId)
        requires
            builder_wf(old(self)),
        ensures
            builder_wf(final(self)),
            final(self).dfg@.len() == old(self).dfg@.len() + 1,
            r == old(self).dfg@.len(),
            final(self).dfg@[r as int] == (ValueV::Intrinsic {
                op,
                typ: crate::ir::TypeV::Function,
            }),
    {
        let id = self.dfg.values.len();
        self.dfg.values.push(Value::Intrinsic { op, typ: IrType::Function });
        proof {
            lemma_builder_push_value(old(self), self);
        }
        id
    }

    /// Defines a plain function value usable as a call target.
    pub fn function_value(&mut self, id: u32) -> (r: ValueId)
        requires
            builder_wf(old(self)),
        ensures
            builder_wf(final(self)),
            final(self).dfg@.len() == old(self).dfg@.len() + 1,
            r == old(self).dfg@.len(),
            final(self).dfg@[r as int] == (ValueV::Function {
                id,
                typ: crate::ir::TypeV::Function,
            }),
    {
        let vid = self.dfg.values.len();
        self.dfg.values.push(Value::Function { id, typ: IrType::Function });
        proof {
            lemma_builder_push_value(old(self), self);
        }
        vid
    }

    /// Emits one instruction with one fresh result of the given type.
    fn push_unary_result(&mut self, instruction: Instruction, result_typ: IrType) -> (r: ValueId)
        requires
            builder_wf(old(self)),
            forall|k: int|
                0 <= k < instr_operands(instruction@).len() ==> (#[trigger] instr_operands(
                    instruction@,
                )[k]) < old(self).dfg@.len(),
        ensures
            builder_wf(final(self)),
            final(self).dfg@.len() == old(self).dfg@.len() + 1,
            r == old(self).dfg@.len(),
            final(self).dfg@[r as int] == (ValueV::InstructionResult { typ: result_typ@ }),
            final(self).instructions@.len() == old(self).instructions@.len() + 1,
            final(self).instructions@.last()@ == (crate::ssa::EntryV {
                instruction: instruction@,
                results: seq![r],
                call_stack: 0,
            }),
    {
        let result = self.dfg.values.len();
        self.dfg.values.push(Value::InstructionResult { typ: result_typ });
        proof {
            lemma_builder_push_value(old(self), self);
        }
        let mut results: Vec<ValueId> = Vec::new();
        results.push(result);
        let entry = InstructionEntry { instruction, results, call_stack: 0 };
        proof {
            assert(entry@.results =~= seq![result]);
        }
        self.instructions.push(entry);
        proof {
            assert forall|i: int| 0 <= i < self.instructions@.len() implies entry_wf(
                self.dfg@.len() as int,
                #[trigger] self.instructions@[i]@,
            ) && entry_ordered(self.instructions@[i]@) by {
                if i < old(self).instructions@.len() {
                    assert(self.instructions@[i] == old(self).instructions@[i]);
                    crate::ssa::lemma_entry_wf_mono(
                        old(self).dfg@.len() as int,
                        self.dfg@.len() as int,
                        self.instructions@[i]@,
                    );
                }
            }
        }
        result
    }

    /// Emits a binary instruction.
    pub fn insert_binary(&mut self, lhs: ValueId, op: BinaryOp, rhs: ValueId) -> (r: ValueId)
        requires
            builder_wf(old(self)),
            lhs < old(self).dfg@.len(),
            rhs < old(self).dfg@.len(),
        ensures
            builder_wf(final(self)),
            final(self).dfg@.len() == old(self).dfg@.len() + 1,
            r == old(self).dfg@.len(),
            final(self).instructions@.len() == old(self).instructions@.len() + 1,
            final(self).instructions@.last()@ == (crate::ssa::EntryV {
                instruction: InstructionV::Binary { lhs, op, rhs },
                results: seq![r],
                call_stack: 0,
            }),
    {
        let instruction = Instruction::Binary { lhs, op, rhs };
        proof {
            assert(instr_operands(instruction@) =~= seq![lhs, rhs]);
        }
        self.push_unary_result(instruction, IrType::Numeric)
    }

    /// Emits a constraint between two values, with an optional failure
    /// message.
    pub fn insert_constrain(&mut self, lhs: ValueId, rhs: ValueId, message: Option<String>)
        requires
            builder_wf(old(self)),
            lhs < old(self).dfg@.len(),
            rhs < old(self).dfg@.len(),
        ensures
            builder_wf(final(self)),
            final(self).dfg@ == old(self).dfg@,
            final(self).instructions@.len() == old(self).instructions@.len() + 1,
            final(self).instructions@.last()@.instruction matches InstructionV::Constrain {
                lhs: l2,
                rhs: r2,
                ..
            } && l2 == lhs && r2 == rhs,
            final(self).instructions@.last()@.results == Seq::<ValueId>::empty(),
    {
        let instruction = Instruction::Constrain { lhs, rhs, message };
        proof {
            assert(instr_operands(instruction@) =~= seq![lhs, rhs]);
        }
        let entry = InstructionEntry { instruction, results: Vec::new(), call_stack: 0 };
        self.instructions.push(entry);
        proof {
            assert forall|i: int| 0 <= i < self.instructions@.len() implies entry_wf(
                self.dfg@.len() as int,
                #[trigger] self.instructions@[i]@,
            ) && entry_ordered(self.instructions@[i]@) by {
                if i < old(self).instructions@.len() {
                    assert(self.instructions@[i] == old(self).instructions@[i]);
                }
            }
        }
    }

    /// Emits a read of `array` at `index`, with a result of the given type.
    pub fn insert_array_get(&mut self, array: ValueId, index: ValueId, result_typ: IrType) -> (r:
        ValueId)
        requires
            builder_wf(old(self)),
            array < old(self).dfg@.len(),
            index < old(self).dfg@.len(),
        ensures
            builder_wf(final(self)),
            final(self).dfg@.len() == old(self).dfg@.len() + 1,
            r == old(self).dfg@.len(),
            final(self).instructions@.len() == old(self).instructions@.len() + 1,
            final(self).instructions@.last()@ == (crate::ssa::EntryV {
                instruction: InstructionV::ArrayGet { array, index },
                results: seq![r],
                call_stack: 0,
            }),
    {
        let instruction = Instruction::ArrayGet { array, index };
        proof {
            assert(instr_operands(instruction@) =~= seq![array, index]);
        }
        self.push_unary_result(instruction, result_typ)
    }

    /// Emits a write of `value` into `array` at `index`; the result is the
    /// new sequence identity, of the given type.
    pub fn insert_array_set(
        &mut self,
        array: ValueId,
        index: ValueId,
        value: ValueId,
        result_typ: IrType,
    ) -> (r: ValueId)
        requires
            builder_wf(old(self)),
            array < old(self).dfg@.len(),
            index < old(self).dfg@.len(),
            value < old(self).dfg@.len(),
        ensures
            builder_wf(final(self)),
            final(self).dfg@.len() == old(self).dfg@.len() + 1,
            r == old(self).dfg@.len(),
            final(self).instructions@.len() == old(self).instructions@.len() + 1,
            final(self).instructions@.last()@ == (crate::ssa::EntryV {
                instruction: InstructionV::ArraySet { array, index, value },
                results: seq![r],
                call_stack: 0,
            }),
    {
        let instruction = Instruction::ArraySet { array, index, value };
        proof {
            assert(instr_operands(instruction@) =~= seq![array, index, value]);
        }
        self.push_unary_result(instruction, result_typ)
    }

    /// Emits a call of `func` on `arguments`, with one result of the given
    /// type.
    pub fn insert_call(
        &mut self,
        func: ValueId,
        arguments: Vec<ValueId>,
        result_typ: IrType,
    ) -> (r: ValueId)
        requires
            builder_wf(old(self)),
            func < old(self).dfg@.len(),
            forall|k: int|
                0 <= k < arguments@.len() ==> (#[trigger] arguments@[k]) < old(self).dfg@.len(),
        ensures
            builder_wf(final(self)),
            final(self).dfg@.len() == old(self).dfg@.len() + 1,
            r == old(self).dfg@.len(),
            final(self).instructions@.len() == old(self).instructions@.len() + 1,
            final(self).instructions@.last()@.instruction matches InstructionV::Call {
                func: f2,
                arguments: a2,
            } && f2 == func && a2 == arguments@,
            final(self).instructions@.last()@.results == seq![r],
    {
        let instruction = Instruction::Call { func, arguments };
        proof {
            let ops = instr_operands(instruction@);
            assert forall|k: int| 0 <= k < ops.len() implies (#[trigger] ops[k]) < old(
                self,
            ).dfg@.len() by {
                if k > 0 {
                    assert(ops[k] == instruction@->Call_arguments[k - 1]);
                }
            }
        }
        self.push_unary_result(instruction, result_typ)
    }

    /// Ends the entry block with a return of the given values.
    pub fn terminate_with_return(&mut self, args: Vec<ValueId>)
        requires
            builder_wf(old(self)),
            forall|k: int| 0 <= k < args@.len() ==> (#[trigger] args@[k]) < old(self).dfg@.len(),
        ensures
            builder_wf(final(self)),
            final(self).terminator_args@ == args@,
    {
        self.terminator_args = args;
    }

    /// Appends one further, empty block after the entry block.
    pub fn add_block(&mut self)
        requires
            builder_wf(old(self)),
        ensures
            builder_wf(final(self)),
    {
        if self.extra_blocks < usize::MAX {
            self.extra_blocks = self.extra_blocks + 1;
        }
    }

    /// Assembles the finished program: one function holding everything
    /// built.
    pub fn finish(self) -> (r: Ssa)
        requires
            builder_wf(&self),
        ensures
            crate::ssa::ssa_wf(&r),
            crate::ssa::ssa_ordered(&r),
            crate::ssa::ssa_results_fresh(&r),
            r.functions@.len() == 1,
            r.functions@[0].name@ == self.name@,
            r.functions@[0].runtime == self.runtime,
            r.functions@[0].dfg@ == self.dfg@,
            r.functions@[0].blocks@.len() == 1 + self.extra_blocks,
            r.functions@[0].blocks@[0].instructions@ == self.instructions@,
            r.functions@[0].blocks@[0].terminator_args@ == self.terminator_args@,
            r.functions@[0].databus@ == self.databus@,
    {
        let ghost b = self;
        let mut blocks: Vec<Block> = Vec::new();
        blocks.push(
            Block { instructions: self.instructions, terminator_args: self.terminator_args },
        );
        let mut extra = self.extra_blocks;
        while extra > 0
            invariant
                extra <= b.extra_blocks,
                blocks@.len() == 1 + b.extra_blocks - extra,
                blocks@[0].instructions@ == b.instructions@,
                blocks@[0].terminator_args@ == b.terminator_args@,
                forall|i: int|
                    0 <= i < blocks@.len() ==> crate::ssa::block_wf(
                        b.dfg@.len() as int,
                        #[trigger] &blocks@[i],
                    ) && crate::ssa::block_ordered(&blocks@[i])
                        && crate::ssa::block_results_fresh(b.dfg@, &blocks@[i]),
            decreases extra,
        {
            blocks.push(Block { instructions: Vec::new(), terminator_args: Vec::new() });
            extra -= 1;
        }
        let function = Function {
            name: self.name,
            runtime: self.runtime,
            blocks,
            dfg: self.dfg,
            databus: self.databus,
        };
        let mut functions: Vec<Function> = Vec::new();
        functions.push(function);
        let r = Ssa { functions };
        r
    }
}

/// Appending a well-formed value to the store keeps everything accumulated
/// well formed.
proof fn lemma_builder_push_value(pre: &FunctionBuilder, post: &FunctionBuilder)
    requires
        builder_wf(pre),
        post.dfg@.len() == pre.dfg@.len() + 1,
        forall|i: int| 0 <= i < pre.dfg@.len() ==> post.dfg@[i] == pre.dfg@[i],
        post.dfg@.last() matches ValueV::Array { contents, .. } ==> forall|k: int|
            0 <= k < contents.len() ==> (#[trigger] contents[k]) < pre.dfg@.len(),
        post.instructions@ == pre.instructions@,
        post.terminator_args@ == pre.terminator_args@,
        post.databus@ == pre.databus@,
    ensures
        builder_wf(post),
{
    assert forall|i: int| 0 <= i < post.dfg@.len() implies crate::ssa::value_wf(post.dfg@, i) by {
        if i < pre.dfg@.len() {
            assert(post.dfg@[i] == pre.dfg@[i]);
            assert(crate::ssa::value_wf(pre.dfg@, i));
        } else {
            assert(post.dfg@[i] == post.dfg@.last());
        }
    }
    assert forall|i: int| 0 <= i < post.instructions@.len() implies entry_wf(
        post.dfg@.len() as int,
        #[trigger] post.instructions@[i]@,
    ) && entry_ordered(post.instructions@[i]@) by {
        crate::ssa::lemma_entry_wf_mono(
            pre.dfg@.len() as int,
            post.dfg@.len() as int,
            post.instructions@[i]@,
        );
    }
}

impl Function {
    /// The entry block's index.
    pub fn entry_block(&self) -> (r: usize)
        ensures
            r == 0,
    {
        0
    }
}

impl Ssa {
    /// The program's main function.
    pub fn main(&self) -> (r: &Function)
        requires
            self.functions@.len() >= 1,
        ensures
            r == &self.functions@[0],
    {
        &self.functions[0]
    }
}

} // verus!
