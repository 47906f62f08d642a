use noirc::builder::FunctionBuilder;
use noirc::fill::InternalError;
use noirc::ir::IrType;
use noirc::ssa::BinaryOp;
use noirc::ssa::DataFlowGraph;
use noirc::ssa::Instruction;
use noirc::ssa::IntrinsicOp;
use noirc::ssa::RuntimeType;
use noirc::ssa::ValueId;

fn ids_vector(ids: &[ValueId]) -> im::Vector<usize> {
    let mut v: im::Vector<usize> = im::Vector::new();
    for id in ids {
        v.push_back(*id);
    }
    v
}

fn compare_array_constants(
    got_list: &im::Vector<ValueId>,
    expected_list: &[u128],
    dfg: &DataFlowGraph,
) {
    for i in 0..got_list.len() {
        let got_value = dfg
            .get_numeric_constant(got_list[i])
            .expect("should have a numeric constant");
        assert_eq!(got_value, expected_list[i], "Value is different than expected");
    }
}

fn find_array_get_operand(func: &noirc::ssa::Function) -> ValueId {
    let block_id = func.entry_block();
    let instructions = &func.blocks[block_id].instructions;
    instructions
        .iter()
        .find_map(|entry| {
            if let Instruction::ArrayGet { array, .. } = entry.instruction {
                Some(array)
            } else {
                None
            }
        })
        .expect("Should find array_get instruction")
}

#[test]
fn test_simple_nested_slice() {
    // A nested slice with two internal slices of primitive types fills the
    // smaller internal slice with dummy data to match the length of the
    // larger internal slice.  Slices are represented by a tuple of
    // (length, contents); the type of the nested slice here is a slice of
    // such rows.

    let mut builder = FunctionBuilder::new(String::from("main"), RuntimeType::Acir);

    let main_v0 = builder.add_parameter(IrType::Numeric);

    let two = builder.field_constant(2);
    // Every slice access checks against the dynamic slice length.
    let slice_access_check = builder.insert_binary(main_v0, BinaryOp::Lt, two);
    let one = builder.field_constant(1);
    builder.insert_constrain(
        slice_access_check,
        one,
        Some("Index out of bounds".to_owned()),
    );

    let inner_slice_contents_type = IrType::Slice(vec![IrType::Numeric]);

    let inner_slice_small_len = builder.field_constant(3);
    let inner_slice_small_contents =
        builder.array_constant(ids_vector(&[one, one, one]), inner_slice_contents_type.deep_clone());

    let inner_slice_big_len = builder.field_constant(4);
    let inner_slice_big_contents = builder.array_constant(
        ids_vector(&[two, two, two, two]),
        inner_slice_contents_type.deep_clone(),
    );

    let outer_slice_type =
        IrType::Slice(vec![IrType::Numeric, inner_slice_contents_type.deep_clone()]);

    let outer_slice_contents = builder.array_constant(
        ids_vector(&[
            inner_slice_small_len,
            inner_slice_small_contents,
            inner_slice_big_len,
            inner_slice_big_contents,
        ]),
        outer_slice_type,
    );
    // Fetch through a parameter so the array operation is dynamic.
    let array_get_res = builder.insert_array_get(outer_slice_contents, main_v0, IrType::Numeric);

    let four = builder.field_constant(4);
    builder.insert_constrain(array_get_res, four, None);
    builder.terminate_with_return(Vec::new());

    // The smaller internal slice gets dummy data matching the larger
    // internal slice's size.
    let ssa = builder.finish().fill_internal_slices().unwrap();

    let func = ssa.main();

    // The array get expression has replaced its nested slice with a new
    // slice where the internal slice has dummy data attached to it.
    let array_id = find_array_get_operand(func);

    let (array_constant, _) = func
        .dfg
        .get_array_constant(array_id)
        .expect("should have an array constant");

    let inner_slice_small_len = func
        .dfg
        .get_numeric_constant(array_constant[0])
        .expect("should have a numeric constant");
    assert_eq!(
        inner_slice_small_len, 3,
        "The length of the smaller internal slice should be unchanged"
    );

    let (inner_slice_small_contents, _) = func
        .dfg
        .get_array_constant(array_constant[1])
        .expect("should have an array constant");
    let small_capacity = inner_slice_small_contents.len();
    assert_eq!(small_capacity, 4, "The inner slice contents should contain dummy element");

    compare_array_constants(&inner_slice_small_contents, &[1, 1, 1, 0], &func.dfg);

    let inner_slice_big_len = func
        .dfg
        .get_numeric_constant(array_constant[2])
        .expect("should have a numeric constant");
    assert_eq!(
        inner_slice_big_len, 4,
        "The length of the larger internal slice should be unchanged"
    );

    let (inner_slice_big_contents, _) = func
        .dfg
        .get_array_constant(array_constant[3])
        .expect("should have an array constant");
    let big_capacity = inner_slice_big_contents.len();
    assert_eq!(
        small_capacity, big_capacity,
        "The length of both internal slice contents should be the same"
    );

    compare_array_constants(&inner_slice_big_contents, &[2, 2, 2, 2], &func.dfg);
}

#[test]
fn multi_block_circuit_function_aborts() {
    let mut builder = FunctionBuilder::new(String::from("main"), RuntimeType::Acir);
    let one = builder.field_constant(1);
    builder.terminate_with_return(vec![one]);
    builder.add_block();

    let result = builder.finish().fill_internal_slices();
    assert_eq!(result.err(), Some(InternalError::MultipleBlocks));
}

#[test]
fn alternate_runtime_passes_through_untouched() {
    let mut builder = FunctionBuilder::new(String::from("helper"), RuntimeType::Brillig);
    let one = builder.field_constant(1);
    builder.terminate_with_return(vec![one]);
    builder.add_block();
    builder.add_block();

    let ssa = builder.finish().fill_internal_slices().unwrap();
    assert_eq!(ssa.main().blocks.len(), 3);
    assert_eq!(ssa.main().dfg.len(), 1);
}

#[test]
fn function_typed_slice_element_aborts() {
    // A sequence holding a function-typed element cannot be padded: no
    // meaningful placeholder exists, so compilation aborts.
    let mut builder = FunctionBuilder::new(String::from("main"), RuntimeType::Acir);
    let fv = builder.function_value(7);
    let inner_type = IrType::Slice(vec![IrType::Function]);
    let inner = builder.array_constant(ids_vector(&[fv]), inner_type.deep_clone());
    let one = builder.field_constant(1);
    let outer_type = IrType::Slice(vec![IrType::Numeric, inner_type]);
    let outer = builder.array_constant(ids_vector(&[one, inner]), outer_type.deep_clone());
    let zero = builder.field_constant(0);
    let newv = builder.field_constant(9);
    builder.insert_array_set(outer, zero, newv, outer_type);
    builder.terminate_with_return(Vec::new());

    let result = builder.finish().fill_internal_slices();
    assert_eq!(result.err(), Some(InternalError::UnsupportedDummyType));
}

#[test]
fn call_replaces_only_tracked_argument() {
    // A call with two arguments, only one of which is a tracked
    // sequence-holding value: only that argument is replaced in the
    // emitted call, the other argument's identity is unchanged.
    let mut builder = FunctionBuilder::new(String::from("main"), RuntimeType::Acir);
    let one = builder.field_constant(1);
    let two = builder.field_constant(2);
    let three = builder.field_constant(3);
    let inner_type = IrType::Slice(vec![IrType::Numeric]);
    let inner = builder.array_constant(ids_vector(&[one, one, one]), inner_type.deep_clone());
    let outer_type = IrType::Slice(vec![IrType::Numeric, inner_type]);
    let outer = builder.array_constant(ids_vector(&[three, inner]), outer_type);
    let plain = builder.field_constant(5);
    let callee = builder.function_value(1);
    builder.insert_call(callee, vec![outer, plain], IrType::Numeric);
    // A dynamic read keeps the sequence from being simplified away and
    // seeds the tracking maps the same way real programs do.
    builder.insert_array_get(outer, two, IrType::Numeric);
    builder.terminate_with_return(Vec::new());

    let ssa = builder.finish().fill_internal_slices().unwrap();
    let func = ssa.main();
    let block_id = func.entry_block();
    let call_args: Vec<ValueId> = func.blocks[block_id]
        .instructions
        .iter()
        .find_map(|entry| {
            if let Instruction::Call { arguments, .. } = &entry.instruction {
                Some(arguments.clone())
            } else {
                None
            }
        })
        .expect("Should find call instruction");

    assert_ne!(call_args[0], outer, "the tracked sequence argument is replaced");
    assert_eq!(call_args[1], plain, "the plain argument keeps its identity");
    assert!(
        func.dfg.get_array_constant(call_args[0]).is_some(),
        "the replacement is a concrete sequence"
    );
}

#[test]
fn recorded_bound_never_shrinks() {
    // A size-increasing intrinsic bumps the recorded maximum; a
    // size-decreasing one never lowers it back, so padding still reserves
    // the pre-shrink bound.
    let mut builder = FunctionBuilder::new(String::from("main"), RuntimeType::Acir);
    let one = builder.field_constant(1);
    let two = builder.field_constant(2);
    let inner_type = IrType::Slice(vec![IrType::Numeric]);
    let inner = builder.array_constant(ids_vector(&[one, one]), inner_type.deep_clone());
    let outer_type = IrType::Slice(vec![IrType::Numeric, inner_type.deep_clone()]);
    let outer = builder.array_constant(ids_vector(&[two, inner]), outer_type);

    let push = builder.intrinsic_value(IntrinsicOp::SlicePushBack);
    let pushed = builder.insert_call(push, vec![inner, one], inner_type.deep_clone());
    let pop = builder.intrinsic_value(IntrinsicOp::SlicePopBack);
    builder.insert_call(pop, vec![pushed], inner_type);

    let zero = builder.field_constant(0);
    builder.insert_array_get(outer, zero, IrType::Numeric);
    builder.terminate_with_return(Vec::new());

    let ssa = builder.finish().fill_internal_slices().unwrap();
    let func = ssa.main();
    let array_id = find_array_get_operand(func);
    let (outer_contents, _) = func
        .dfg
        .get_array_constant(array_id)
        .expect("should have an array constant");
    let (inner_contents, _) = func
        .dfg
        .get_array_constant(outer_contents[1])
        .expect("should have an array constant");
    // Two original rows, and one more reserved by the push even though the
    // pop could have shrunk the used length again.
    assert_eq!(inner_contents.len(), 3);
    compare_array_constants(&inner_contents, &[1, 1, 0], &func.dfg);
}

#[test]
fn databus_reflects_rewritten_identity() {
    // The external-I/O descriptor is remapped so a sequence-typed entry
    // names the rewritten value, not the one it replaced.
    let mut builder = FunctionBuilder::new(String::from("main"), RuntimeType::Acir);
    let one = builder.field_constant(1);
    let three = builder.field_constant(3);
    let inner_type = IrType::Slice(vec![IrType::Numeric]);
    let inner = builder.array_constant(ids_vector(&[one, one, one]), inner_type.deep_clone());
    let outer_type = IrType::Slice(vec![IrType::Numeric, inner_type]);
    let outer = builder.array_constant(ids_vector(&[three, inner]), outer_type);
    let zero = builder.field_constant(0);
    builder.insert_array_get(outer, zero, IrType::Numeric);
    builder.terminate_with_return(Vec::new());
    builder.databus = vec![outer, zero];

    let ssa = builder.finish().fill_internal_slices().unwrap();
    let func = ssa.main();
    let replaced = find_array_get_operand(func);
    assert_eq!(func.databus[0], replaced, "the rewritten sequence stands in the descriptor");
    assert_eq!(func.databus[1], zero, "a plain entry keeps its identity");
}

#[test]
fn second_run_changes_nothing() {
    // Re-running the pass on its own output yields no further changes:
    // every length already equals the recorded maximum.
    let mut builder = FunctionBuilder::new(String::from("main"), RuntimeType::Acir);
    let one = builder.field_constant(1);
    let two = builder.field_constant(2);
    let three = builder.field_constant(3);
    let four = builder.field_constant(4);
    let inner_type = IrType::Slice(vec![IrType::Numeric]);
    let small = builder.array_constant(ids_vector(&[one, one, one]), inner_type.deep_clone());
    let big = builder.array_constant(ids_vector(&[two, two, two, two]), inner_type.deep_clone());
    let outer_type = IrType::Slice(vec![IrType::Numeric, inner_type]);
    let outer = builder.array_constant(ids_vector(&[three, small, four, big]), outer_type);
    let zero = builder.field_constant(0);
    builder.insert_array_get(outer, zero, IrType::Numeric);
    builder.terminate_with_return(Vec::new());

    let once = builder.finish().fill_internal_slices().unwrap();
    let first = extract_padded_rows(once.main());

    let twice = once.fill_internal_slices().unwrap();
    let second = extract_padded_rows(twice.main());

    assert_eq!(first, second);
}

fn extract_padded_rows(func: &noirc::ssa::Function) -> Vec<(u128, Vec<u128>)> {
    let array_id = find_array_get_operand(func);
    let (outer_contents, _) = func
        .dfg
        .get_array_constant(array_id)
        .expect("should have an array constant");
    let mut rows = Vec::new();
    let mut i = 0;
    while i + 1 < outer_contents.len() {
        let len = func
            .dfg
            .get_numeric_constant(outer_contents[i])
            .expect("should have a numeric constant");
        let (inner, _) = func
            .dfg
            .get_array_constant(outer_contents[i + 1])
            .expect("should have an array constant");
        let mut values = Vec::new();
        for k in 0..inner.len() {
            values.push(
                func.dfg
                    .get_numeric_constant(inner[k])
                    .expect("should have a numeric constant"),
            );
        }
        rows.push((len, values));
        i += 2;
    }
    rows
}

#[test]
fn functions_are_processed_independently() {
    // A program mixing both runtimes: the circuit-targeted function is
    // rewritten, the alternate-runtime one is left exactly as built.
    let mut acir = FunctionBuilder::new(String::from("main"), RuntimeType::Acir);
    let one = acir.field_constant(1);
    let three = acir.field_constant(3);
    let inner_type = IrType::Slice(vec![IrType::Numeric]);
    let inner = acir.array_constant(ids_vector(&[one, one, one]), inner_type.deep_clone());
    let outer_type = IrType::Slice(vec![IrType::Numeric, inner_type]);
    let outer = acir.array_constant(ids_vector(&[three, inner]), outer_type);
    let zero = acir.field_constant(0);
    acir.insert_array_get(outer, zero, IrType::Numeric);
    acir.terminate_with_return(Vec::new());

    let mut brillig = FunctionBuilder::new(String::from("helper"), RuntimeType::Brillig);
    let seven = brillig.field_constant(7);
    brillig.terminate_with_return(vec![seven]);

    let mut acir_ssa = acir.finish();
    let mut brillig_ssa = brillig.finish();
    let program = noirc::ssa::Ssa {
        functions: vec![acir_ssa.functions.remove(0), brillig_ssa.functions.remove(0)],
    };

    let rewritten = program.fill_internal_slices().unwrap();
    assert_eq!(rewritten.functions.len(), 2);
    assert!(rewritten.functions[0].dfg.len() > 6, "the rewritten function gained padded values");
    assert_eq!(rewritten.functions[1].dfg.len(), 1, "the alternate runtime is untouched");
    assert_eq!(rewritten.functions[1].name, "helper");
}

#[test]
fn terminator_reflects_rewritten_identity() {
    // The block terminator's operands are resolved through the same
    // substitution as everything else: a tracked sequence returned from the
    // function names its padded replacement afterwards.
    let mut builder = FunctionBuilder::new(String::from("main"), RuntimeType::Acir);
    let one = builder.field_constant(1);
    let three = builder.field_constant(3);
    let inner_type = IrType::Slice(vec![IrType::Numeric]);
    let inner = builder.array_constant(ids_vector(&[one, one, one]), inner_type.deep_clone());
    let outer_type = IrType::Slice(vec![IrType::Numeric, inner_type]);
    let outer = builder.array_constant(ids_vector(&[three, inner]), outer_type);
    let zero = builder.field_constant(0);
    builder.insert_array_get(outer, zero, IrType::Numeric);
    builder.terminate_with_return(vec![outer, zero]);

    let ssa = builder.finish().fill_internal_slices().unwrap();
    let func = ssa.main();
    let replaced = find_array_get_operand(func);
    let term = &func.blocks[func.entry_block()].terminator_args;
    assert_eq!(term[0], replaced, "the rewritten sequence stands in the terminator");
    assert_eq!(term[1], zero, "a plain operand keeps its identity");
}
