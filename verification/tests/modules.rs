use msl_backend::arena::{Arena, Token};
use msl_backend::ir::{
    ArrayDeclaration, Binding, BuiltIn, ComplexTypes, EntryPoint, ExecutionModel, Expression,
    Function, GlobalVariable, Module, PointerDeclaration, ScalarKind, StorageClass,
    StructDeclaration, StructMember, Type, VectorSize,
};
use msl_backend::{write_string, BindSource, BindTarget, BindingMap, Error, Options, Writer};

const PREAMBLE: &str = "#include <metal_stdlib>\n#include <simd/simd.h>\nusing namespace metal;\n\n";

fn empty_module() -> Module {
    Module {
        complex_types: ComplexTypes {
            pointers: Arena::new(),
            arrays: Arena::new(),
            structs: Arena::new(),
        },
        global_variables: Arena::new(),
        functions: Arena::new(),
        entry_points: Vec::new(),
    }
}

fn float(size: VectorSize) -> Type {
    Type::Vector { size, kind: ScalarKind::Float }
}

fn pointer(module: &mut Module, class: StorageClass, base: Type) -> Type {
    Type::Pointer(module.complex_types.pointers.append(PointerDeclaration { base, class, name: None }))
}

fn global(
    module: &mut Module,
    class: StorageClass,
    binding: Option<Binding>,
    ty: Type,
) -> Token<GlobalVariable> {
    module.global_variables.append(GlobalVariable { name: None, class, binding, ty })
}

fn function(module: &mut Module, name: Option<&str>, mentioned: &[Token<GlobalVariable>]) -> Token<Function> {
    let mut expressions = Arena::new();
    for &token in mentioned {
        expressions.append(Expression::Other);
        expressions.append(Expression::GlobalVariable(token));
    }
    module.functions.append(Function {
        name: name.map(String::from),
        parameter_types: Vec::new(),
        return_type: Type::Void,
        expressions,
    })
}

fn entry(
    module: &mut Module,
    exec_model: ExecutionModel,
    function: Token<Function>,
    inputs: &[Token<GlobalVariable>],
    outputs: &[Token<GlobalVariable>],
) {
    module.entry_points.push(EntryPoint {
        exec_model,
        function,
        inputs: inputs.to_vec(),
        outputs: outputs.to_vec(),
    });
}

fn member(name: Option<&str>, binding: Option<Binding>, ty: Type) -> StructMember {
    StructMember { name: name.map(String::from), binding, ty }
}

fn translate(module: &Module, map: &BindingMap) -> Result<String, Error> {
    assert!(module.validate());
    write_string(module, Options { binding_map: map })
}

fn translate_plain(module: &Module) -> Result<String, Error> {
    translate(module, &BindingMap::new())
}

fn vertex_scenario() -> Module {
    let mut module = empty_module();
    let position = pointer(&mut module, StorageClass::Input, float(VectorSize::Tri));
    let clip = pointer(&mut module, StorageClass::Output, float(VectorSize::Quad));
    let input = global(&mut module, StorageClass::Input, Some(Binding::Location(0)), position);
    let output =
        global(&mut module, StorageClass::Output, Some(Binding::BuiltIn(BuiltIn::Position)), clip);
    let f = function(&mut module, None, &[]);
    entry(&mut module, ExecutionModel::Vertex, f, &[input], &[output]);
    module
}

#[test]
fn empty_module_is_the_preamble() {
    assert_eq!(translate_plain(&empty_module()).unwrap(), format!("{}\n", PREAMBLE));
}

#[test]
fn vertex_function_with_one_input_and_one_output() {
    let text = translate_plain(&vertex_scenario()).unwrap();
    let expected = format!(
        "{}\n{}{}{}",
        PREAMBLE,
        "struct Input0 {\n\tfloat3 global0 [[attribute(0)]];\n};\n",
        "struct Output0 {\n\tfloat4 global1 [[position]];\n};\n",
        "vertex Output0 function0(\n\tInput0 input [[stage_in]],\n\tunsigned _dummy [[vertex_id]]\n) {\n\tOutput0 output;\n\treturn output;\n}\n",
    );
    assert_eq!(text, expected);
    assert!(text.starts_with(PREAMBLE));
    assert!(text.contains(" [[attribute(0)]];"));
    assert!(text.contains(" [[position]];"));
    assert!(text.contains(
        "vertex Output0 function0(\n\tInput0 input [[stage_in]],\n\tunsigned _dummy [[vertex_id]]\n) {"
    ));
    let start = text.find("vertex Output0").unwrap();
    let words: Vec<&str> = text[start..].split_whitespace().collect();
    assert_eq!(
        words.join(" "),
        "vertex Output0 function0( Input0 input [[stage_in]], unsigned _dummy [[vertex_id]] ) { Output0 output; return output; }"
    );
}

#[test]
fn output_of_plain_vector_type_is_written_directly() {
    let mut module = empty_module();
    let input = global(&mut module, StorageClass::Input, Some(Binding::Location(0)), float(VectorSize::Bi));
    let output = global(
        &mut module,
        StorageClass::Output,
        Some(Binding::BuiltIn(BuiltIn::Position)),
        float(VectorSize::Quad),
    );
    let f = function(&mut module, None, &[]);
    entry(&mut module, ExecutionModel::Vertex, f, &[input], &[output]);
    let text = translate_plain(&module).unwrap();
    assert!(text.contains("struct Input0 {\n\tfloat2 global0 [[attribute(0)]];\n};\n"));
    assert!(text.contains("struct Output0 {\n\tfloat4 global1 [[position]];\n};\n"));
}

#[test]
fn same_input_gives_the_same_output() {
    let first = translate_plain(&vertex_scenario());
    let second = translate_plain(&vertex_scenario());
    assert_eq!(first, second);
    let module = vertex_scenario();
    assert_eq!(translate_plain(&module), translate_plain(&module));
}

#[test]
fn same_failure_for_the_same_input() {
    let mut module = vertex_scenario();
    let f = Token::new(0);
    entry(&mut module, ExecutionModel::Fragment, f, &[], &[]);
    assert_eq!(translate_plain(&module), translate_plain(&module));
    assert!(translate_plain(&module).is_err());
}

#[test]
fn two_stages_for_one_function_fail() {
    let mut module = empty_module();
    function(&mut module, None, &[]);
    let f = function(&mut module, Some("shade"), &[]);
    entry(&mut module, ExecutionModel::Vertex, f, &[], &[]);
    entry(&mut module, ExecutionModel::Fragment, f, &[], &[]);
    assert_eq!(translate_plain(&module), Err(Error::MixedExecutionModels(f)));
    assert_eq!(f.index(), 1);
}

#[test]
fn two_unsupported_stages_for_one_function_are_mixed_too() {
    let mut module = empty_module();
    let f = function(&mut module, None, &[]);
    entry(&mut module, ExecutionModel::Other(1), f, &[], &[]);
    entry(&mut module, ExecutionModel::Other(3), f, &[], &[]);
    assert_eq!(translate_plain(&module), Err(Error::MixedExecutionModels(f)));
}

#[test]
fn entry_points_of_one_stage_share_a_function() {
    let mut module = empty_module();
    let a = global(&mut module, StorageClass::Input, Some(Binding::Location(0)), float(VectorSize::Bi));
    let b = global(&mut module, StorageClass::Input, Some(Binding::Location(1)), float(VectorSize::Tri));
    let c = global(&mut module, StorageClass::Input, Some(Binding::Location(2)), float(VectorSize::Quad));
    let f = function(&mut module, None, &[]);
    entry(&mut module, ExecutionModel::Fragment, f, &[b, a], &[]);
    entry(&mut module, ExecutionModel::Fragment, f, &[a, c, b, c], &[]);
    let text = translate_plain(&module).unwrap();
    assert!(text.contains(
        "struct Input0 {\n\tfloat3 global1 [[user(loc1)]];\n\tfloat2 global0 [[user(loc0)]];\n\tfloat4 global2 [[user(loc2)]];\n};\nstruct Output0 {\n};\nfragment Output0 function0(\n"
    ));
}

#[test]
fn entry_points_of_other_functions_do_not_count() {
    let mut module = empty_module();
    let a = global(&mut module, StorageClass::Input, Some(Binding::Location(0)), float(VectorSize::Bi));
    let f = function(&mut module, None, &[]);
    let g = function(&mut module, None, &[]);
    entry(&mut module, ExecutionModel::Vertex, g, &[a], &[]);
    entry(&mut module, ExecutionModel::Fragment, f, &[], &[a]);
    let text = translate_plain(&module).unwrap();
    let expected = format!(
        "{}\n{}{}{}{}",
        PREAMBLE,
        "struct Input0 {\n};\nstruct Output0 {\n\tfloat2 global0 [[color(0)]];\n};\n",
        "fragment Output0 function0(\n\tInput0 input [[stage_in]],\n\tbool _dummy [[front_facing]]\n) {\n\tOutput0 output;\n\treturn output;\n}\n",
        "struct Input1 {\n\tfloat2 global0 [[attribute(0)]];\n};\nstruct Output1 {\n};\n",
        "vertex Output1 function1(\n\tInput1 input [[stage_in]],\n\tunsigned _dummy [[vertex_id]]\n) {\n\tOutput1 output;\n\treturn output;\n}\n",
    );
    assert_eq!(text, expected);
}

#[test]
fn unsupported_stage_fails() {
    let mut module = empty_module();
    let f = function(&mut module, None, &[]);
    entry(&mut module, ExecutionModel::Other(3), f, &[], &[]);
    entry(&mut module, ExecutionModel::Other(3), f, &[], &[]);
    assert_eq!(
        translate_plain(&module),
        Err(Error::UnsupportedExecutionModel(ExecutionModel::Other(3)))
    );
}

#[test]
fn compute_stage() {
    let mut module = empty_module();
    let f = function(&mut module, Some("main"), &[]);
    entry(&mut module, ExecutionModel::GLCompute, f, &[], &[]);
    let expected = format!(
        "{}\n{}{}",
        PREAMBLE,
        "struct InputMain {\n};\nstruct OutputMain {\n};\n",
        "compute OutputMain main_(\n\tInputMain input [[stage_in]],\n\tunsigned _dummy [[threads_per_grid]]\n) {\n\tOutputMain output;\n\treturn output;\n}\n",
    );
    assert_eq!(translate_plain(&module).unwrap(), expected);
}

#[test]
fn function_that_no_entry_point_starts() {
    let mut module = empty_module();
    let array = Type::Array(module.complex_types.arrays.append(ArrayDeclaration {
        base: Type::Scalar { kind: ScalarKind::Uint },
        length: 16,
        name: Some(String::from("Table")),
    }));
    module.functions.append(Function {
        name: Some(String::from("helper")),
        parameter_types: vec![
            Type::Scalar { kind: ScalarKind::Sint },
            Type::Matrix { columns: VectorSize::Bi, rows: VectorSize::Quad, kind: ScalarKind::Float },
            array,
        ],
        return_type: float(VectorSize::Tri),
        expressions: Arena::new(),
    });
    let expected = format!(
        "{}{}\n{}",
        PREAMBLE,
        "typedef unsigned int Table[16];\n",
        "float3 helper(\n\tsigned int param0,\n\tfloat2x4 param1,\n\tTable param2,\n\tint _dummy\n) {\n\tfloat3 output;\n\treturn output;\n}\n",
    );
    assert_eq!(translate_plain(&module).unwrap(), expected);
}

#[test]
fn types_are_declared_in_the_order_of_their_arenas() {
    let mut module = empty_module();
    let body = module.complex_types.structs.append(StructDeclaration {
        name: Some(String::from("Light")),
        members: vec![
            member(Some("main"), None, float(VectorSize::Tri)),
            member(None, Some(Binding::Location(2)), Type::Scalar { kind: ScalarKind::Float }),
            member(Some("shadow"), Some(Binding::Descriptor { set: 0, binding: 1 }), Type::Void),
        ],
    });
    pointer(&mut module, StorageClass::Input, float(VectorSize::Bi));
    pointer(&mut module, StorageClass::Uniform, Type::Struct(body));
    pointer(&mut module, StorageClass::Other(6), Type::Scalar { kind: ScalarKind::Sint });
    pointer(&mut module, StorageClass::Output, Type::Struct(body));
    let lights = module.complex_types.arrays.append(ArrayDeclaration {
        base: Type::Struct(body),
        length: 4,
        name: None,
    });
    module.complex_types.structs.append(StructDeclaration {
        name: None,
        members: vec![member(None, None, Type::Array(lights))],
    });
    let mut map = BindingMap::new();
    map.insert(
        BindSource { set: 0, binding: 1 },
        BindTarget { buffer: None, texture: Some(7), sampler: None },
    );
    let expected = format!(
        "{}{}{}{}{}{}\n",
        PREAMBLE,
        "struct Light; //forward decl\ntypedef constant Light *Pointer1;\n",
        "typedef  signed int *Pointer2;\n",
        "typedef Light Array0[4];\n",
        "struct Light {\n\tfloat3 main_;\n\tfloat field1 [[user(loc2)]];\n\tvoid shadow [[texture(7)]];\n};\n",
        "struct Struct1 {\n\tArray0 field0;\n};\n",
    );
    assert_eq!(translate(&module, &map).unwrap(), expected);
}

#[test]
fn struct_member_with_missing_descriptor_fails() {
    let mut module = empty_module();
    module.complex_types.structs.append(StructDeclaration {
        name: None,
        members: vec![
            member(None, Some(Binding::Location(0)), Type::Void),
            member(None, Some(Binding::Descriptor { set: 2, binding: 5 }), Type::Void),
            member(None, Some(Binding::Descriptor { set: 9, binding: 9 }), Type::Void),
        ],
    });
    assert_eq!(
        translate_plain(&module),
        Err(Error::MissingBindTarget(BindSource { set: 2, binding: 5 }))
    );
}

#[test]
fn failure_of_a_type_comes_before_failure_of_a_function() {
    let mut module = empty_module();
    module.complex_types.structs.append(StructDeclaration {
        name: None,
        members: vec![member(None, Some(Binding::Descriptor { set: 2, binding: 5 }), Type::Void)],
    });
    let f = function(&mut module, None, &[]);
    entry(&mut module, ExecutionModel::Vertex, f, &[], &[]);
    entry(&mut module, ExecutionModel::Fragment, f, &[], &[]);
    assert_eq!(
        translate_plain(&module),
        Err(Error::MissingBindTarget(BindSource { set: 2, binding: 5 }))
    );
}

#[test]
fn failure_of_the_first_function_decides() {
    let mut module = empty_module();
    let f = function(&mut module, None, &[]);
    let g = function(&mut module, None, &[]);
    entry(&mut module, ExecutionModel::Other(9), f, &[], &[]);
    entry(&mut module, ExecutionModel::Vertex, g, &[], &[]);
    entry(&mut module, ExecutionModel::Fragment, g, &[], &[]);
    assert_eq!(
        translate_plain(&module),
        Err(Error::UnsupportedExecutionModel(ExecutionModel::Other(9)))
    );
}

#[test]
fn members_take_the_place_of_an_output_that_points_to_a_struct() {
    let mut module = empty_module();
    let body = module.complex_types.structs.append(StructDeclaration {
        name: Some(String::from("Varyings")),
        members: vec![
            member(Some("position"), Some(Binding::BuiltIn(BuiltIn::Position)), float(VectorSize::Quad)),
            member(None, Some(Binding::Location(1)), float(VectorSize::Bi)),
            member(Some("size"), Some(Binding::BuiltIn(BuiltIn::PointSize)), Type::Scalar { kind: ScalarKind::Float }),
        ],
    });
    let block = pointer(&mut module, StorageClass::Output, Type::Struct(body));
    let colour = pointer(&mut module, StorageClass::Output, float(VectorSize::Quad));
    let first = global(&mut module, StorageClass::Output, None, block);
    let second = global(&mut module, StorageClass::Output, Some(Binding::Location(0)), colour);
    let f = function(&mut module, Some("frag"), &[]);
    entry(&mut module, ExecutionModel::Fragment, f, &[], &[first, second]);
    let text = translate_plain(&module).unwrap();
    assert!(text.contains(
        "struct OutputFrag {\n\tfloat4 position [[position]];\n\tfloat2 field1 [[color(1)]];\n\tfloat size [[point_size]];\n\tfloat4 global1 [[color(0)]];\n};\n"
    ));
    assert!(text.contains(
        "struct Varyings {\n\tfloat4 position [[position]];\n\tfloat2 field1 [[user(loc1)]];\n\tfloat size [[point_size]];\n};\n"
    ));
}

#[test]
fn members_of_an_empty_struct_leave_nothing() {
    let mut module = empty_module();
    let body = module.complex_types.structs.append(StructDeclaration { name: None, members: Vec::new() });
    let block = pointer(&mut module, StorageClass::Output, Type::Struct(body));
    let output = global(&mut module, StorageClass::Output, Some(Binding::Location(0)), block);
    let f = function(&mut module, None, &[]);
    entry(&mut module, ExecutionModel::Vertex, f, &[], &[output]);
    let text = translate_plain(&module).unwrap();
    assert!(text.contains("struct Output0 {\n};\n"));
}

#[test]
fn output_member_without_binding_fails() {
    let mut module = empty_module();
    let body = module.complex_types.structs.append(StructDeclaration {
        name: None,
        members: vec![
            member(None, Some(Binding::Location(0)), float(VectorSize::Quad)),
            member(None, None, float(VectorSize::Bi)),
        ],
    });
    let block = pointer(&mut module, StorageClass::Output, Type::Struct(body));
    let plain =
        global(&mut module, StorageClass::Output, Some(Binding::Location(3)), float(VectorSize::Bi));
    let output = global(&mut module, StorageClass::Output, None, block);
    let f = function(&mut module, None, &[]);
    entry(&mut module, ExecutionModel::Vertex, f, &[], &[plain, output]);
    assert_eq!(translate_plain(&module), Err(Error::MissingBinding(output)));
    assert_eq!(output.index(), 1);
}

#[test]
fn input_that_points_to_a_struct_is_not_taken_apart() {
    let mut module = empty_module();
    let body = module.complex_types.structs.append(StructDeclaration {
        name: None,
        members: vec![member(None, None, float(VectorSize::Bi))],
    });
    let block = pointer(&mut module, StorageClass::Input, Type::Struct(body));
    let input = global(&mut module, StorageClass::Input, Some(Binding::Location(0)), block);
    let f = function(&mut module, None, &[]);
    entry(&mut module, ExecutionModel::Vertex, f, &[input], &[]);
    let text = translate_plain(&module).unwrap();
    assert!(text.contains("struct Input0 {\n\tStruct0 global0 [[attribute(0)]];\n};\n"));
}

#[test]
fn output_with_missing_descriptor_fails() {
    let mut module = empty_module();
    let output = global(
        &mut module,
        StorageClass::Output,
        Some(Binding::Descriptor { set: 1, binding: 1 }),
        float(VectorSize::Bi),
    );
    let f = function(&mut module, None, &[]);
    entry(&mut module, ExecutionModel::Vertex, f, &[], &[output]);
    let mut map = BindingMap::new();
    map.insert(BindSource { set: 1, binding: 0 }, BindTarget { buffer: Some(0), texture: None, sampler: None });
    assert_eq!(
        translate(&module, &map),
        Err(Error::MissingBindTarget(BindSource { set: 1, binding: 1 }))
    );
    map.insert(BindSource { set: 1, binding: 1 }, BindTarget { buffer: None, texture: None, sampler: Some(2) });
    assert!(translate(&module, &map).unwrap().contains("\tfloat2 global0 [[sampler(2)]];\n"));
}

#[test]
fn uniform_becomes_a_parameter_once_in_the_module() {
    let mut module = empty_module();
    let block = pointer(&mut module, StorageClass::Uniform, float(VectorSize::Quad));
    let first = global(&mut module, StorageClass::Uniform, None, block);
    let second = module.global_variables.append(GlobalVariable {
        name: Some(String::from("lights")),
        class: StorageClass::Uniform,
        binding: None,
        ty: block,
    });
    let private = global(&mut module, StorageClass::Other(6), None, block);
    function(&mut module, None, &[first, private, first]);
    function(&mut module, None, &[second, first, second]);
    function(&mut module, None, &[first, second]);
    let expected = format!(
        "{}{}\n{}{}{}",
        PREAMBLE,
        "typedef constant float4 *Pointer0;\n",
        "void function0(\n\tPointer0 global0,\n\tint _dummy\n) {\n\tvoid output;\n\treturn output;\n}\n",
        "void function1(\n\tPointer0 lights,\n\tint _dummy\n) {\n\tvoid output;\n\treturn output;\n}\n",
        "void function2(\n\tint _dummy\n) {\n\tvoid output;\n\treturn output;\n}\n",
    );
    assert_eq!(translate_plain(&module).unwrap(), expected);
}

#[test]
fn uniform_parameter_follows_the_input_struct() {
    let mut module = empty_module();
    let uniform = global(&mut module, StorageClass::Uniform, None, float(VectorSize::Quad));
    let f = function(&mut module, None, &[uniform]);
    entry(&mut module, ExecutionModel::Vertex, f, &[], &[]);
    let text = translate_plain(&module).unwrap();
    assert!(text.contains(
        "vertex Output0 function0(\n\tInput0 input [[stage_in]],\n\tfloat4 global0,\n\tunsigned _dummy [[vertex_id]]\n) {\n"
    ));
}

#[test]
fn function_without_stage_returns_a_value_of_its_return_type() {
    let mut module = empty_module();
    module.functions.append(Function {
        name: None,
        parameter_types: Vec::new(),
        return_type: Type::Scalar { kind: ScalarKind::Float },
        expressions: Arena::new(),
    });
    let text = translate_plain(&module).unwrap();
    assert!(text.ends_with("float function0(\n\tint _dummy\n) {\n\tfloat output;\n\treturn output;\n}\n"));
    assert!(!text.contains("Output0"));
}

#[test]
fn function_without_stage_returns_a_value_of_a_declared_type() {
    let mut module = empty_module();
    let body = module.complex_types.structs.append(StructDeclaration {
        name: Some(String::from("Ray")),
        members: Vec::new(),
    });
    module.functions.append(Function {
        name: Some(String::from("cast")),
        parameter_types: Vec::new(),
        return_type: Type::Struct(body),
        expressions: Arena::new(),
    });
    let text = translate_plain(&module).unwrap();
    assert!(text.ends_with("Ray cast(\n\tint _dummy\n) {\n\tRay output;\n\treturn output;\n}\n"));
}

#[test]
fn input_without_binding_fails() {
    let mut module = empty_module();
    let quad = pointer(&mut module, StorageClass::Input, float(VectorSize::Quad));
    let bound = global(&mut module, StorageClass::Input, Some(Binding::Location(0)), quad);
    let unbound = global(&mut module, StorageClass::Input, None, quad);
    let f = function(&mut module, None, &[]);
    entry(&mut module, ExecutionModel::Vertex, f, &[bound, unbound], &[]);
    assert_eq!(translate_plain(&module), Err(Error::MissingBinding(unbound)));
    assert_eq!(unbound.index(), 1);
}

#[test]
fn input_that_points_to_a_struct_needs_a_binding_of_its_own() {
    let mut module = empty_module();
    let body = module.complex_types.structs.append(StructDeclaration {
        name: None,
        members: vec![member(None, Some(Binding::Location(0)), float(VectorSize::Bi))],
    });
    let block = pointer(&mut module, StorageClass::Input, Type::Struct(body));
    let input = global(&mut module, StorageClass::Input, None, block);
    let f = function(&mut module, None, &[]);
    entry(&mut module, ExecutionModel::Fragment, f, &[input], &[]);
    assert_eq!(translate_plain(&module), Err(Error::MissingBinding(input)));
}

#[test]
fn output_without_binding_fails_where_it_points_to_no_struct() {
    let mut module = empty_module();
    let quad = pointer(&mut module, StorageClass::Output, float(VectorSize::Quad));
    let pointed = global(&mut module, StorageClass::Output, None, quad);
    let f = function(&mut module, None, &[]);
    entry(&mut module, ExecutionModel::Fragment, f, &[], &[pointed]);
    assert_eq!(translate_plain(&module), Err(Error::MissingBinding(pointed)));

    let mut module = empty_module();
    let plain = global(&mut module, StorageClass::Output, None, float(VectorSize::Quad));
    let f = function(&mut module, None, &[]);
    entry(&mut module, ExecutionModel::Vertex, f, &[], &[plain]);
    assert_eq!(translate_plain(&module), Err(Error::MissingBinding(plain)));
}

#[test]
fn input_fails_before_output() {
    let mut module = empty_module();
    let input = global(&mut module, StorageClass::Input, None, float(VectorSize::Quad));
    let output = global(&mut module, StorageClass::Output, None, float(VectorSize::Quad));
    let f = function(&mut module, None, &[]);
    entry(&mut module, ExecutionModel::Vertex, f, &[input], &[output]);
    assert_eq!(translate_plain(&module), Err(Error::MissingBinding(input)));
}

#[test]
fn variable_without_binding_is_no_defect_outside_the_stage_structs() {
    let mut module = empty_module();
    let uniform = global(&mut module, StorageClass::Uniform, None, float(VectorSize::Quad));
    global(&mut module, StorageClass::Input, None, float(VectorSize::Quad));
    let f = function(&mut module, None, &[uniform]);
    entry(&mut module, ExecutionModel::Vertex, f, &[], &[]);
    assert!(translate_plain(&module).is_ok());
}

#[test]
fn validation_finds_a_named_class_or_stage_written_as_other() {
    for number in [1, 2, 3] {
        let mut module = empty_module();
        pointer(&mut module, StorageClass::Other(number), Type::Void);
        assert!(!module.validate());
        assert!(!module.complex_types.validate());
        assert!(!StorageClass::Other(number).validate());

        let mut module = empty_module();
        global(&mut module, StorageClass::Other(number), None, Type::Void);
        assert!(!module.validate());
    }
    for number in [0, 4, 5] {
        let mut module = empty_module();
        let f = function(&mut module, None, &[]);
        entry(&mut module, ExecutionModel::Other(number), f, &[], &[]);
        assert!(!module.validate());
        assert!(!ExecutionModel::Other(number).validate());
    }
    for number in [0, 4, 5, 6, 12, 5349] {
        let mut module = empty_module();
        pointer(&mut module, StorageClass::Other(number), Type::Void);
        global(&mut module, StorageClass::Other(number), None, Type::Void);
        assert!(module.validate());
        assert!(StorageClass::Other(number).validate());
    }
    for number in [1, 2, 3, 6, 5267] {
        let mut module = empty_module();
        let f = function(&mut module, None, &[]);
        entry(&mut module, ExecutionModel::Other(number), f, &[], &[]);
        assert!(module.validate());
        assert!(ExecutionModel::Other(number).validate());
    }
    for class in [StorageClass::Input, StorageClass::Output, StorageClass::Uniform] {
        assert!(class.validate());
    }
    for model in [ExecutionModel::Vertex, ExecutionModel::Fragment, ExecutionModel::GLCompute] {
        assert!(model.validate());
    }
}

#[test]
fn pointers_without_qualifier_are_listed() {
    let mut module = empty_module();
    assert_eq!(module.complex_types.unqualified_pointers(), Vec::<usize>::new());
    pointer(&mut module, StorageClass::Other(6), Type::Void);
    pointer(&mut module, StorageClass::Input, Type::Void);
    pointer(&mut module, StorageClass::Uniform, Type::Void);
    pointer(&mut module, StorageClass::Other(0), Type::Void);
    pointer(&mut module, StorageClass::Output, Type::Void);
    pointer(&mut module, StorageClass::Other(7), Type::Void);
    assert_eq!(module.complex_types.unqualified_pointers(), [0, 3, 5]);
}

#[test]
fn writer_adds_to_its_text() {
    let mut writer = Writer::new(String::from("// generated\n"));
    let module = vertex_scenario();
    let map = BindingMap::new();
    assert_eq!(writer.write(&module, Options { binding_map: &map }), Ok(()));
    let text = writer.finish();
    assert_eq!(text, format!("// generated\n{}", translate_plain(&module).unwrap()));
}

#[test]
fn writer_keeps_its_text_where_the_translation_fails() {
    let mut writer = Writer::new(String::from("// generated\n"));
    let mut module = empty_module();
    let f = function(&mut module, None, &[]);
    entry(&mut module, ExecutionModel::Vertex, f, &[], &[]);
    entry(&mut module, ExecutionModel::GLCompute, f, &[], &[]);
    let map = BindingMap::new();
    assert_eq!(
        writer.write(&module, Options { binding_map: &map }),
        Err(Error::MixedExecutionModels(f))
    );
    assert_eq!(writer.finish(), "// generated\n");
}

#[test]
fn validation_finds_handles_without_entry() {
    assert!(empty_module().validate());
    assert!(vertex_scenario().validate());

    let mut module = empty_module();
    global(&mut module, StorageClass::Input, None, Type::Pointer(Token::new(0)));
    assert!(!module.validate());
    pointer(&mut module, StorageClass::Input, Type::Void);
    assert!(module.validate());

    let mut module = empty_module();
    pointer(&mut module, StorageClass::Input, Type::Array(Token::new(0)));
    assert!(!module.validate());
    assert!(!module.complex_types.validate());

    let mut module = empty_module();
    module.complex_types.structs.append(StructDeclaration {
        name: None,
        members: vec![member(None, None, Type::Struct(Token::new(1)))],
    });
    assert!(!module.validate());
    module.complex_types.structs.append(StructDeclaration { name: None, members: Vec::new() });
    assert!(module.validate());

    let mut module = empty_module();
    function(&mut module, None, &[Token::new(0)]);
    assert!(!module.validate());

    let mut module = empty_module();
    let f = function(&mut module, None, &[]);
    entry(&mut module, ExecutionModel::Vertex, f, &[Token::new(3)], &[]);
    assert!(!module.validate());

    let mut module = empty_module();
    entry(&mut module, ExecutionModel::Vertex, Token::new(0), &[], &[]);
    assert!(!module.validate());
}

#[test]
fn arena_hands_out_positions() {
    let mut arena: Arena<u32> = Arena::new();
    assert_eq!(arena.len(), 0);
    let a = arena.append(10);
    let b = arena.append(20);
    assert_eq!((a.index(), b.index()), (0, 1));
    assert_eq!(arena.len(), 2);
    assert_eq!(arena.get(1), &20);
    assert_eq!(arena.try_get(a), Some(&10));
    assert_eq!(arena.try_get(Token::new(2)), None);
    assert_eq!(a, Token::new(0));
    assert_eq!(a.clone(), a);
}
