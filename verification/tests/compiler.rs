use rwasm::common::UntypedValue;
use rwasm::common::ValueType;
use rwasm::compiler::Compiler;
use rwasm::compiler::CompilerError;
use rwasm::compiler::Error;
use rwasm::engine::Config;
use rwasm::engine::Engine;
use rwasm::engine::FuncBody;
use rwasm::engine::FuncType;
use rwasm::engine::InstructionPtr;
use rwasm::import_linker::ImportLinker;
use rwasm::instruction::BranchOffset;
use rwasm::instruction::DropKeep;
use rwasm::instruction::Instruction;
use rwasm::module::ConstExpr;
use rwasm::module::DataSegment;
use rwasm::module::DataSegmentKind;
use rwasm::module::ElementSegment;
use rwasm::module::ElementSegmentKind;
use rwasm::module::ExternIdx;
use rwasm::module::ImportName;
use rwasm::module::Imported;
use rwasm::module::Module;
use rwasm::module::ModuleImports;
use rwasm::module::TableType;

fn value(bits: u64) -> UntypedValue {
    UntypedValue { bits }
}

fn pair(drop: u16, keep: u16) -> DropKeep {
    DropKeep { drop, keep }
}

fn zero() -> Instruction {
    Instruction::I32Const(value(0))
}

fn plain_return() -> Instruction {
    Instruction::Return(pair(0, 0))
}

fn op(code: u8) -> Instruction {
    Instruction::Operator { code, immediate: 0 }
}

fn blank_engine() -> Engine {
    Engine::new(&Config::default())
}

fn blank_module() -> Module {
    Module {
        imports: ModuleImports { items: vec![], len_funcs: 0, len_globals: 0 },
        funcs: vec![],
        compiled_funcs: vec![],
        tables: vec![],
        globals: vec![],
        globals_init: vec![],
        exports: vec![],
        element_segments: vec![],
        data_segments: vec![],
    }
}

fn add_function(
    engine: &mut Engine,
    module: &mut Module,
    params: usize,
    len_locals: usize,
    instrs: Vec<Instruction>,
) {
    engine.func_types.push(FuncType { params: vec![ValueType::I32; params], results: vec![] });
    module.funcs.push(engine.func_types.len() as u32 - 1);
    engine.func_bodies.push(FuncBody { len_locals, instrs });
    module.compiled_funcs.push(engine.func_bodies.len() as u32 - 1);
}

fn add_import(engine: &mut Engine, module: &mut Module, field: &str) {
    engine.func_types.push(FuncType { params: vec![], results: vec![] });
    module.funcs.push(engine.func_types.len() as u32 - 1);
    module.imports.items.push(Imported::Func(import_name(field)));
    module.imports.len_funcs += 1;
}

fn import_name(field: &str) -> ImportName {
    ImportName { module: "env".to_string(), field: field.to_string() }
}

fn export_main(module: &mut Module, index: ExternIdx) {
    module.exports.push(("memory".to_string(), ExternIdx::Memory(0)));
    module.exports.push(("main".to_string(), index));
}

fn compiler_of(engine: Engine, module: Module) -> Compiler<'static> {
    match Compiler::from_loaded(Ok((engine, module)), None) {
        Ok(compiler) => compiler,
        Err(error) => panic!("{:?}", error),
    }
}

/// A compiler of a module with one function, which has this body.
fn compiler_of_body(instrs: Vec<Instruction>) -> Compiler<'static> {
    let (mut engine, mut module) = (blank_engine(), blank_module());
    engine.consts.push(value(1234));
    add_function(&mut engine, &mut module, 0, 0, instrs);
    compiler_of(engine, module)
}

/// The code of the instruction at the start of a body, and where the next one is.
fn step(instrs: Vec<Instruction>, is_main: bool) -> (Vec<Instruction>, usize) {
    let mut compiler = compiler_of_body(instrs);
    let mut ptr = InstructionPtr { body: 0, pos: 0 };
    assert_eq!(compiler.translate_opcode(&mut ptr, is_main), Ok(()));
    (compiler.code_section().instr.clone(), ptr.pos)
}

#[test]
fn new_loads_the_binary_without_fuel() {
    let binary = [0, 0x61, 0x73, 0x6d];
    let loaded = Compiler::new(&binary, |engine, bytes| {
        assert!(!engine.consume_fuel);
        assert_eq!(bytes, [0, 0x61, 0x73, 0x6d]);
        Ok((engine, blank_module()))
    });
    match loaded {
        Ok(compiler) => assert_eq!(compiler.code_section().instr, vec![]),
        Err(error) => panic!("{:?}", error),
    }
}

#[test]
fn new_hands_on_why_a_binary_is_no_module() {
    let failed = Compiler::new(&[], |_, _| Err(Error { message: "empty".to_string() }));
    match failed {
        Ok(_) => panic!("no module"),
        Err(error) => {
            assert_eq!(
                error,
                CompilerError::ModuleError(Error { message: "empty".to_string() })
            )
        }
    }
}

#[test]
fn new_is_new_with_no_linker() {
    let load = |mut engine: Engine, bytes: &[u8]| {
        if bytes.is_empty() {
            return Err(Error { message: "empty".to_string() });
        }
        let mut module = blank_module();
        add_import(&mut engine, &mut module, "print");
        Ok((engine, module))
    };
    match (Compiler::new(&[], load), Compiler::new_with_linker(&[], load, None)) {
        (Err(one), Err(other)) => {
            assert_eq!(one, other);
            assert_eq!(one, CompilerError::ModuleError(Error { message: "empty".to_string() }));
        }
        _ => panic!("no module"),
    }
    for made in [Compiler::new(&[1], load), Compiler::new_with_linker(&[1], load, None)] {
        match made {
            Ok(mut compiler) => {
                assert_eq!(compiler.code_section().instr, vec![]);
                assert_eq!(
                    compiler.translate_host_call(0),
                    Err(CompilerError::UnknownImport(import_name("print")))
                );
                assert_eq!(compiler.translate_function(0, true), Ok(()));
                assert_eq!(compiler.translate(Some(0)), Ok(()));
            }
            Err(error) => panic!("{:?}", error),
        }
    }
}

#[test]
fn new_with_linker_keeps_the_linker() {
    let mut linker = ImportLinker::new();
    linker.insert_function(import_name("print"), 42);
    let loaded = Compiler::new_with_linker(
        &[1],
        |mut engine, _| {
            let mut module = blank_module();
            add_import(&mut engine, &mut module, "print");
            Ok((engine, module))
        },
        Some(&linker),
    );
    match loaded {
        Ok(mut compiler) => {
            assert_eq!(compiler.translate_host_call(0), Ok(()));
            assert_eq!(compiler.code_section().instr, vec![Instruction::Call(42)]);
        }
        Err(error) => panic!("{:?}", error),
    }
}

#[test]
fn host_calls_need_a_known_function() {
    let (mut engine, mut module) = (blank_engine(), blank_module());
    add_import(&mut engine, &mut module, "print");
    module.imports.items.push(Imported::Global(import_name("g")));
    let mut linker = ImportLinker::new();
    linker.insert_function(import_name("read"), 1);
    let mut compiler = match Compiler::from_loaded(Ok((engine, module)), Some(&linker)) {
        Ok(compiler) => compiler,
        Err(error) => panic!("{:?}", error),
    };
    assert_eq!(
        compiler.translate_host_call(0),
        Err(CompilerError::UnknownImport(import_name("print")))
    );
    assert_eq!(compiler.translate_host_call(1), Err(CompilerError::NotSupportedImport));
    assert_eq!(compiler.translate_host_call(2), Err(CompilerError::NotSupportedImport));
    assert_eq!(compiler.code_section().instr, vec![]);
}

#[test]
fn host_calls_need_a_linker() {
    let (mut engine, mut module) = (blank_engine(), blank_module());
    add_import(&mut engine, &mut module, "print");
    let mut compiler = compiler_of(engine, module);
    assert_eq!(
        compiler.translate_host_call(0),
        Err(CompilerError::UnknownImport(import_name("print")))
    );
}

#[test]
fn globals_are_set_to_their_values() {
    let mut module = blank_module();
    module.globals = vec![ValueType::I64, ValueType::FuncRef, ValueType::I32];
    module.globals_init =
        vec![ConstExpr::Const(value(7)), ConstExpr::FuncRef(3), ConstExpr::GlobalGet(0)];
    let mut compiler = compiler_of(blank_engine(), module);
    assert_eq!(compiler.translate_global(0), Ok(()));
    assert_eq!(compiler.translate_global(1), Ok(()));
    assert_eq!(compiler.translate_global(2), Ok(()));
    assert_eq!(
        compiler.code_section().instr,
        vec![
            Instruction::I64Const(value(7)),
            Instruction::GlobalSet(0),
            Instruction::RefFunc(3),
            Instruction::GlobalSet(1),
            Instruction::GlobalSet(2),
        ]
    );
}

fn active(table_index: u32, offset: ConstExpr, items: Vec<ConstExpr>) -> ElementSegment {
    ElementSegment {
        kind: ElementSegmentKind::Active { table_index, offset },
        ty: ValueType::FuncRef,
        items,
    }
}

fn module_with_segments(element: ValueType, segments: Vec<ElementSegment>) -> Module {
    let mut module = blank_module();
    module.tables = vec![TableType { element: ValueType::FuncRef }, TableType { element }];
    module.element_segments = segments;
    module
}

fn table_error(element: ValueType, segments: Vec<ElementSegment>) -> (CompilerError, usize) {
    let mut compiler = compiler_of(blank_engine(), module_with_segments(element, segments));
    match compiler.translate_table(1) {
        Ok(()) => panic!("no error"),
        Err(error) => (error, compiler.code_section().instr.len()),
    }
}

#[test]
fn table_grows_by_as_many_items_as_it_gets() {
    let segments = vec![
        active(1, ConstExpr::Const(value(5)), vec![ConstExpr::FuncRef(8), ConstExpr::FuncRef(9)]),
        active(0, ConstExpr::Const(value(0)), vec![ConstExpr::FuncRef(1)]),
        active(
            1,
            ConstExpr::Const(value(0x1_0000_0006)),
            vec![ConstExpr::Const(value(0)), ConstExpr::GlobalGet(0)],
        ),
    ];
    let mut compiler =
        compiler_of(blank_engine(), module_with_segments(ValueType::FuncRef, segments));
    assert_eq!(compiler.translate_table(1), Ok(()));
    let code = &compiler.code_section().instr;
    assert_eq!(
        code,
        &vec![
            Instruction::I64Const(value(4)),
            Instruction::TableGrow(1),
            Instruction::RefFunc(8),
            Instruction::TableSet(5),
            Instruction::RefFunc(9),
            Instruction::TableSet(5),
            Instruction::I64Const(value(0)),
            Instruction::TableSet(6),
            Instruction::TableSet(6),
        ]
    );
    let sets = code.iter().filter(|i| matches!(i, Instruction::TableSet(_))).count();
    assert_eq!(sets, 4);
}

#[test]
fn tables_hold_function_references() {
    assert_eq!(
        table_error(ValueType::ExternRef, vec![]),
        (CompilerError::NotSupported("only funcref type is supported for tables"), 0)
    );
    let mut segment = active(1, ConstExpr::Const(value(0)), vec![]);
    segment.ty = ValueType::ExternRef;
    assert_eq!(
        table_error(ValueType::FuncRef, vec![segment]),
        (CompilerError::NotSupported("only funcref type is supported for element segments"), 0)
    );
}

#[test]
fn element_segments_are_active() {
    for kind in [ElementSegmentKind::Passive, ElementSegmentKind::Declared] {
        let mut segment = active(0, ConstExpr::Const(value(0)), vec![]);
        segment.kind = kind;
        assert_eq!(
            table_error(ValueType::FuncRef, vec![segment]),
            (
                CompilerError::NotSupported(
                    "passive or declared mode for element segments is not supported"
                ),
                0
            )
        );
    }
}

#[test]
fn element_offsets_are_constants() {
    let segments = vec![
        active(1, ConstExpr::Const(value(0)), vec![ConstExpr::FuncRef(1)]),
        active(1, ConstExpr::GlobalGet(0), vec![ConstExpr::FuncRef(2)]),
    ];
    assert_eq!(
        table_error(ValueType::FuncRef, segments),
        (CompilerError::NotSupported("only static global variables supported"), 4)
    );
    let compiler = compiler_of(blank_engine(), blank_module());
    assert_eq!(compiler.translate_const_expr(&ConstExpr::Const(value(2))), Ok(value(2)));
    assert_eq!(
        compiler.translate_const_expr(&ConstExpr::FuncRef(2)),
        Err(CompilerError::NotSupported("only static global variables supported"))
    );
}

fn memory_outcome(kind: DataSegmentKind) -> (Result<(), CompilerError>, Vec<Instruction>) {
    let mut module = blank_module();
    module.data_segments.push(DataSegment {
        kind: DataSegmentKind::Active { memory_index: 0, offset: ConstExpr::Const(value(1)) },
        bytes: vec![7],
    });
    module.data_segments.push(DataSegment { kind, bytes: vec![1, 2, 3, 4] });
    let mut compiler = compiler_of(blank_engine(), module);
    (compiler.translate_memory(), compiler.code_section().instr.clone())
}

#[test]
fn data_segments_become_stores() {
    let first = vec![
        Instruction::I32Const(value(1)),
        Instruction::I32Const(value(7)),
        Instruction::I32Store8(0),
    ];
    let mut both = first.clone();
    both.push(Instruction::I32Const(value(16)));
    both.push(Instruction::I32Const(value(0x0403_0201)));
    both.push(Instruction::I32Store(0));
    let offset = ConstExpr::Const(value(0x1_0000_0010));
    assert_eq!(
        memory_outcome(DataSegmentKind::Active { memory_index: 0, offset }),
        (Ok(()), both)
    );
    assert_eq!(
        memory_outcome(DataSegmentKind::Active { memory_index: 1, offset }),
        (Err(CompilerError::NotSupported("not zero index")), first.clone())
    );
    assert_eq!(
        memory_outcome(DataSegmentKind::Active {
            memory_index: 1,
            offset: ConstExpr::GlobalGet(0)
        }),
        (Err(CompilerError::NotSupported("can't eval offset")), first.clone())
    );
    assert_eq!(
        memory_outcome(DataSegmentKind::Passive),
        (Err(CompilerError::NotSupported("passive mode is not supported")), first)
    );
}

#[test]
fn swap_goes_from_the_deepest_value_up() {
    let mut compiler = compiler_of(blank_engine(), blank_module());
    compiler.swap(2);
    assert_eq!(
        compiler.code_section().instr,
        vec![
            Instruction::LocalGet(1),
            Instruction::LocalGet(1),
            Instruction::LocalSet(3),
            Instruction::LocalSet(1),
            Instruction::LocalGet(0),
            Instruction::LocalGet(1),
            Instruction::LocalSet(2),
            Instruction::LocalSet(1),
        ]
    );
    compiler.swap(0);
    assert_eq!(compiler.code_section().len(), 8);
}

#[test]
fn swap_moves_the_top_value_down() {
    let mut compiler = compiler_of(blank_engine(), blank_module());
    compiler.swap(4);
    let mut stack = vec![9, 1, 2, 3, 4];
    for instr in &compiler.code_section().instr {
        let top = stack.len() - 1;
        match *instr {
            Instruction::LocalGet(depth) => stack.push(stack[top - depth as usize]),
            Instruction::LocalSet(depth) => {
                stack[top - depth as usize] = stack[top];
                stack.pop();
            }
            _ => panic!("not a swap"),
        }
    }
    assert_eq!(stack, vec![9, 4, 1, 2, 3]);
}

#[test]
fn branches_drop_and_keep_first() {
    let adjust = vec![
        Instruction::BrAdjust(BranchOffset(6)),
        Instruction::Return(pair(2, 1)),
        op(1),
    ];
    assert_eq!(
        step(adjust, false),
        (
            vec![
                Instruction::LocalSet(2),
                Instruction::Drop,
                Instruction::Br(BranchOffset(6)),
                plain_return(),
            ],
            2
        )
    );
    let conditional = vec![
        Instruction::BrAdjustIfNez(BranchOffset(-6)),
        Instruction::Return(pair(2, 1)),
    ];
    assert_eq!(
        step(conditional, false),
        (
            vec![
                Instruction::BrIfEqz(BranchOffset(3)),
                Instruction::LocalSet(2),
                Instruction::Drop,
                Instruction::Br(BranchOffset(-6)),
                plain_return(),
            ],
            2
        )
    );
}

#[test]
fn returns_of_main_and_of_others() {
    let body = vec![Instruction::Return(pair(1, 0))];
    assert_eq!(step(body.clone(), true), (vec![Instruction::Drop, plain_return()], 1));
    assert_eq!(
        step(body, false),
        (
            vec![
                Instruction::LocalGet(1),
                Instruction::LocalSet(2),
                Instruction::Drop,
                Instruction::BrIndirect,
            ],
            1
        )
    );
    let conditional = vec![Instruction::ReturnIfNez(pair(1, 0))];
    assert_eq!(
        step(conditional, true),
        (
            vec![
                Instruction::BrIfEqz(BranchOffset(2)),
                Instruction::Drop,
                Instruction::ReturnIfNez(pair(0, 0)),
            ],
            1
        )
    );
}

#[test]
fn calls_and_constants() {
    assert_eq!(
        step(vec![Instruction::CallInternal(4)], true),
        (vec![Instruction::I32Const(value(2)), Instruction::CallInternal(4)], 1)
    );
    let tail = vec![Instruction::ReturnCallInternal(4), Instruction::Return(pair(0, 0))];
    assert_eq!(step(tail, true), (vec![Instruction::BrIndirect], 2));
    let indirect = vec![
        Instruction::CallIndirect(3),
        Instruction::TableGet(2),
        op(9),
        Instruction::Return(pair(1, 0)),
    ];
    assert_eq!(
        step(indirect, true),
        (vec![Instruction::Drop, Instruction::TableGet(2), Instruction::BrIndirect], 4)
    );
    assert_eq!(
        step(vec![Instruction::ConstRef(0)], true),
        (vec![Instruction::I64Const(value(1234))], 1)
    );
    assert_eq!(step(vec![op(0x6a), op(0x6b)], true), (vec![op(0x6a)], 1));
}

#[test]
fn failing_instructions_add_nothing() {
    let mut compiler = compiler_of_body(vec![Instruction::Return(pair(0xffff, 0))]);
    let mut ptr = InstructionPtr { body: 0, pos: 0 };
    assert_eq!(
        compiler.translate_opcode(&mut ptr, false),
        Err(CompilerError::DropKeepOutOfBounds)
    );
    assert_eq!(ptr.pos, 0);
    assert_eq!(compiler.code_section().instr, vec![]);
    let tail = vec![Instruction::ReturnCallInternal(0), Instruction::Return(pair(0, 0xffff))];
    let mut compiler = compiler_of_body(tail);
    assert_eq!(
        compiler.translate_opcode(&mut ptr, true),
        Err(CompilerError::DropKeepOutOfBounds)
    );
    assert_eq!(ptr.pos, 1);
    let mut compiler = compiler_of_body(vec![Instruction::Call(0)]);
    let mut ptr = InstructionPtr { body: 0, pos: 0 };
    assert_eq!(
        compiler.translate_opcode(&mut ptr, true),
        Err(CompilerError::NotSupportedImport)
    );
}

#[test]
fn functions_begin_with_parameters_and_locals() {
    let (mut engine, mut module) = (blank_engine(), blank_module());
    add_import(&mut engine, &mut module, "print");
    add_function(&mut engine, &mut module, 1, 2, vec![op(1), Instruction::Return(pair(0, 0))]);
    let mut compiler = compiler_of(engine, module);
    assert_eq!(compiler.translate_function(0, false), Ok(()));
    assert_eq!(compiler.code_section().instr, vec![]);
    assert_eq!(compiler.translate_function(1, true), Ok(()));
    assert_eq!(
        compiler.code_section().instr,
        vec![
            Instruction::LocalGet(0),
            Instruction::LocalGet(1),
            Instruction::LocalSet(2),
            Instruction::LocalSet(1),
            zero(),
            zero(),
            op(1),
            plain_return(),
        ]
    );
}

#[test]
fn functions_need_a_body() {
    let (mut engine, mut module) = (blank_engine(), blank_module());
    add_function(&mut engine, &mut module, 1, 0, vec![]);
    module.compiled_funcs.clear();
    let mut compiler = compiler_of(engine, module);
    assert_eq!(compiler.translate_function(0, true), Err(CompilerError::MissingFunction));
    assert_eq!(compiler.code_section().len(), 4);
}

/// A module with a global, a data segment, a table, one import and three functions, the
/// second of which is `main`.
fn whole_module() -> (Engine, Module) {
    let (mut engine, mut module) = (blank_engine(), blank_module());
    add_import(&mut engine, &mut module, "print");
    add_function(&mut engine, &mut module, 0, 0, vec![op(1)]);
    add_function(
        &mut engine,
        &mut module,
        0,
        1,
        vec![Instruction::CallInternal(2), Instruction::Return(pair(0, 0))],
    );
    add_function(&mut engine, &mut module, 0, 0, vec![op(3)]);
    module.globals = vec![ValueType::I32];
    module.globals_init = vec![ConstExpr::Const(value(5))];
    module.tables = vec![TableType { element: ValueType::FuncRef }];
    module.data_segments.push(DataSegment {
        kind: DataSegmentKind::Active { memory_index: 0, offset: ConstExpr::Const(value(1)) },
        bytes: vec![7],
    });
    export_main(&mut module, ExternIdx::Func(2));
    (engine, module)
}

fn setup_code() -> Vec<Instruction> {
    vec![
        Instruction::I64Const(value(5)),
        Instruction::GlobalSet(0),
        Instruction::I64Const(value(0)),
        Instruction::TableGrow(0),
        Instruction::I32Const(value(1)),
        Instruction::I32Const(value(7)),
        Instruction::I32Store8(0),
    ]
}

fn main_code() -> Vec<Instruction> {
    vec![
        zero(),
        Instruction::I32Const(value(10)),
        Instruction::CallInternal(2),
        plain_return(),
    ]
}

#[test]
fn modules_are_translated_main_first() {
    let (engine, module) = whole_module();
    let mut compiler = compiler_of(engine, module);
    assert_eq!(compiler.translate(None), Ok(()));
    let expected = [setup_code(), main_code(), vec![op(1), op(3)]].concat();
    assert_eq!(compiler.code_section().instr, expected);
}

#[test]
fn one_function_can_be_translated_alone() {
    let (engine, module) = whole_module();
    let mut compiler = compiler_of(engine, module);
    assert_eq!(compiler.translate(Some(3)), Ok(()));
    assert_eq!(compiler.code_section().instr, [setup_code(), vec![op(3)]].concat());
    let (engine, module) = whole_module();
    let mut compiler = compiler_of(engine, module);
    assert_eq!(compiler.translate(Some(0)), Ok(()));
    assert_eq!(compiler.code_section().instr, setup_code());
}

#[test]
fn modules_need_an_entrypoint() {
    let (engine, mut module) = whole_module();
    module.exports.clear();
    let mut compiler = compiler_of(engine, module);
    assert_eq!(compiler.translate(None), Err(CompilerError::MissingEntrypoint));
    assert_eq!(compiler.code_section().instr, setup_code());
    let (engine, mut module) = whole_module();
    module.exports.clear();
    export_main(&mut module, ExternIdx::Global(0));
    let mut compiler = compiler_of(engine, module);
    assert_eq!(compiler.finalize(), Err(CompilerError::MissingEntrypoint));
}

#[test]
fn binary_of_a_module() {
    let (engine, module) = whole_module();
    let mut compiler = compiler_of(engine, module);
    let expected: Vec<u8> = [
        vec![0x17, 0, 0, 0, 0, 0, 0, 0, 5],
        vec![0x11, 0, 0, 0, 0],
        vec![0x17, 0, 0, 0, 0, 0, 0, 0, 0],
        vec![0x12, 0, 0, 0, 0],
        vec![0x16, 0, 0, 0, 0, 0, 0, 0, 1],
        vec![0x16, 0, 0, 0, 0, 0, 0, 0, 7],
        vec![0x19, 0, 0, 0, 0],
        // at 51
        vec![0x16, 0, 0, 0, 0, 0, 0, 0, 0],
        vec![0x16, 0, 0, 0, 0, 0, 0, 0, 10],
        vec![0x02, 0, 0, 0, 89],
        vec![0x08, 0, 0, 0, 0],
        // at 79
        vec![0x1d, 1, 0, 0, 0, 0, 0, 0, 0, 0],
        // at 89
        vec![0x1d, 3, 0, 0, 0, 0, 0, 0, 0, 0],
    ]
    .concat();
    assert_eq!(compiler.finalize(), Ok(expected.clone()));
    assert_eq!(compiler.code_section().instr[9], Instruction::Br(BranchOffset(3)));
    assert_eq!(compiler.finalize(), Ok(expected.clone()));
    let (engine, module) = whole_module();
    let mut compiler = compiler_of(engine, module);
    assert_eq!(compiler.translate(None), Ok(()));
    assert_eq!(compiler.finalize(), Ok(expected));
}

#[test]
fn branches_become_places() {
    let (mut engine, mut module) = (blank_engine(), blank_module());
    add_function(
        &mut engine,
        &mut module,
        0,
        0,
        vec![
            Instruction::Br(BranchOffset(2)),
            Instruction::Drop,
            Instruction::BrIfNez(BranchOffset(-1)),
        ],
    );
    export_main(&mut module, ExternIdx::Func(0));
    let mut compiler = compiler_of(engine, module);
    assert_eq!(
        compiler.finalize(),
        Ok(vec![0x02, 0, 0, 0, 6, 0x10, 0x04, 0, 0, 0, 5])
    );
}

#[test]
fn branches_stay_in_the_code() {
    for offset in [-1, 1] {
        let (mut engine, mut module) = (blank_engine(), blank_module());
        let body = vec![Instruction::Br(BranchOffset(offset))];
        add_function(&mut engine, &mut module, 0, 0, body);
        export_main(&mut module, ExternIdx::Func(0));
        let mut compiler = compiler_of(engine, module);
        assert_eq!(compiler.finalize(), Err(CompilerError::OutOfBuffer));
    }
}

#[test]
fn references_become_places() {
    let (mut engine, mut module) = (blank_engine(), blank_module());
    add_function(&mut engine, &mut module, 0, 0, vec![Instruction::RefFunc(1)]);
    add_function(&mut engine, &mut module, 0, 0, vec![Instruction::Drop]);
    export_main(&mut module, ExternIdx::Func(0));
    let mut compiler = compiler_of(engine, module);
    assert_eq!(compiler.finalize(), Ok(vec![0x15, 0, 0, 0, 5, 0x10]));
}

#[test]
fn failures_repeat() {
    let (engine, mut module) = whole_module();
    module.compiled_funcs.pop();
    let mut compiler = compiler_of(engine, module);
    assert_eq!(compiler.finalize(), Err(CompilerError::MissingFunction));
    let left = [setup_code(), main_code(), vec![op(1)]].concat();
    assert_eq!(compiler.code_section().instr, left);
    assert_eq!(compiler.finalize(), Err(CompilerError::MissingFunction));
    assert!(compiler.code_section().instr.starts_with(&left));
}

#[test]
fn references_need_a_function() {
    let (mut engine, mut module) = (blank_engine(), blank_module());
    add_function(&mut engine, &mut module, 0, 0, vec![Instruction::RefFunc(7)]);
    export_main(&mut module, ExternIdx::Func(0));
    let mut compiler = compiler_of(engine, module);
    assert_eq!(compiler.finalize(), Err(CompilerError::MissingFunction));
}
