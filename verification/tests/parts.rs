use rwasm::binary_format::BinaryFormat;
use rwasm::binary_format::BinaryFormatError;
use rwasm::binary_format::BinaryFormatWriter;
use rwasm::common::UntypedValue;
use rwasm::compiler::drop_keep::DropKeepWithReturnParam;
use rwasm::compiler::CompilerError;
use rwasm::compiler::Translator;
use rwasm::engine::Config;
use rwasm::engine::Engine;
use rwasm::import_linker::ImportLinker;
use rwasm::instruction::BranchOffset;
use rwasm::instruction::DropKeep;
use rwasm::instruction::DropKeepError;
use rwasm::instruction::Instruction;
use rwasm::instruction_set::InstructionSet;
use rwasm::module::ConstExpr;
use rwasm::module::ExternIdx;
use rwasm::module::ImportName;

fn value(bits: u64) -> UntypedValue {
    UntypedValue { bits }
}

/// Runs straight-line code on a stack and a memory.
fn execute(code: &[Instruction], stack: &mut Vec<u64>, memory: &mut Vec<u8>) {
    for instr in code {
        let top = stack.len();
        match *instr {
            Instruction::LocalGet(depth) => stack.push(stack[top - 1 - depth as usize]),
            Instruction::LocalSet(depth) => {
                stack[top - 1 - depth as usize] = stack[top - 1];
                stack.pop();
            }
            Instruction::Drop => {
                stack.pop();
            }
            Instruction::I32Const(v) | Instruction::I64Const(v) => stack.push(v.bits),
            Instruction::I32Store8(offset) => store(stack, memory, offset, 1),
            Instruction::I32Store16(offset) => store(stack, memory, offset, 2),
            Instruction::I32Store(offset) => store(stack, memory, offset, 4),
            Instruction::I64Store(offset) => store(stack, memory, offset, 8),
            _ => panic!("not straight-line code"),
        }
    }
}

fn store(stack: &mut Vec<u64>, memory: &mut Vec<u8>, offset: u32, width: usize) {
    let bytes = stack.pop().unwrap().to_le_bytes();
    let address = stack.pop().unwrap() as usize + offset as usize;
    memory[address..address + width].copy_from_slice(&bytes[..width]);
}

fn drop_keep_result(drop: u16, keep: u16, stack: &[u64]) -> Vec<u64> {
    let mut set = InstructionSet::new();
    assert_eq!(DropKeep { drop, keep }.translate(&mut set), Ok(()));
    let mut stack = stack.to_vec();
    execute(&set.instr, &mut stack, &mut vec![]);
    stack
}

#[test]
fn drop_keep_code_of_few_kept_values() {
    let mut set = InstructionSet::new();
    set.op_br_indirect();
    assert_eq!(DropKeep { drop: 3, keep: 1 }.translate(&mut set), Ok(()));
    assert_eq!(
        set.instr,
        vec![
            Instruction::BrIndirect,
            Instruction::LocalSet(3),
            Instruction::Drop,
            Instruction::Drop,
        ]
    );
}

#[test]
fn drop_keep_code_of_many_kept_values() {
    let mut set = InstructionSet::new();
    assert_eq!(DropKeep { drop: 1, keep: 2 }.translate(&mut set), Ok(()));
    assert_eq!(
        set.instr,
        vec![
            Instruction::LocalGet(1),
            Instruction::LocalSet(3),
            Instruction::LocalGet(0),
            Instruction::LocalSet(2),
            Instruction::Drop,
        ]
    );
}

#[test]
fn drop_keep_drops_from_below_the_top() {
    let stack = [1, 2, 3, 4, 5, 6];
    assert_eq!(drop_keep_result(0, 3, &stack), vec![1, 2, 3, 4, 5, 6]);
    assert_eq!(drop_keep_result(2, 0, &stack), vec![1, 2, 3, 4]);
    assert_eq!(drop_keep_result(2, 1, &stack), vec![1, 2, 3, 6]);
    assert_eq!(drop_keep_result(2, 2, &stack), vec![1, 2, 5, 6]);
    assert_eq!(drop_keep_result(2, 4, &stack), vec![3, 4, 5, 6]);
    assert_eq!(drop_keep_result(1, 4, &stack), vec![1, 3, 4, 5, 6]);
}

#[test]
fn drop_keep_with_return_param_ends_with_the_address() {
    let address = 77;
    for (drop, keep, before, after) in [
        (0, 0, vec![1, address], vec![1, address]),
        (2, 0, vec![1, address, 2, 3], vec![1, address]),
        (1, 2, vec![1, address, 2, 3, 4], vec![1, 3, 4, address]),
        (0, 3, vec![address, 2, 3, 4], vec![2, 3, 4, address]),
    ] {
        let mut set = InstructionSet::new();
        let pair = DropKeepWithReturnParam(DropKeep { drop, keep });
        assert_eq!(pair.translate(&mut set), Ok(()));
        let mut stack = before;
        execute(&set.instr, &mut stack, &mut vec![]);
        assert_eq!(stack, after);
    }
}

#[test]
fn drop_keep_with_return_param_has_bounds() {
    for (drop, keep) in [(0xffff, 0), (0, 0xffff), (0xffff, 0xffff)] {
        let mut set = InstructionSet::new();
        let pair = DropKeepWithReturnParam(DropKeep { drop, keep });
        assert_eq!(pair.translate(&mut set), Err(CompilerError::DropKeepOutOfBounds));
        assert_eq!(set.instr, vec![]);
    }
}

#[test]
fn drop_keep_numbers_fit_in_two_bytes() {
    assert_eq!(DropKeep::new(0xffff, 7), Ok(DropKeep { drop: 0xffff, keep: 7 }));
    assert_eq!(DropKeep::new(0x1_0000, 0x1_0000), Err(DropKeepError::DropOutOfBounds));
    assert_eq!(DropKeep::new(0, 0x1_0000), Err(DropKeepError::KeepOutOfBounds));
    assert_eq!(DropKeep::none(), DropKeep { drop: 0, keep: 0 });
}

#[test]
fn data_is_stored_in_wide_pieces() {
    let mut set = InstructionSet::new();
    set.add_memory(100, &vec![1, 2, 3, 4, 5, 6, 7, 8, 9, 10, 11]);
    assert_eq!(
        set.instr,
        vec![
            Instruction::I32Const(value(100)),
            Instruction::I64Const(value(0x0807_0605_0403_0201)),
            Instruction::I64Store(0),
            Instruction::I32Const(value(100)),
            Instruction::I32Const(value(0x0a09)),
            Instruction::I32Store16(8),
            Instruction::I32Const(value(100)),
            Instruction::I32Const(value(11)),
            Instruction::I32Store8(10),
        ]
    );
}

#[test]
fn data_lands_where_it_belongs() {
    for len in 0..20u8 {
        let bytes: Vec<u8> = (0..len).map(|i| 200 + i).collect();
        let mut set = InstructionSet::new();
        set.add_memory(3, &bytes);
        let mut memory = vec![9; 30];
        let mut stack = vec![5];
        execute(&set.instr, &mut stack, &mut memory);
        let mut expected = vec![9; 30];
        expected[3..3 + len as usize].copy_from_slice(&bytes);
        assert_eq!(memory, expected);
        assert_eq!(stack, vec![5]);
    }
}

#[test]
fn instruction_set_ends_with_a_return_on_demand() {
    let end = Instruction::Return(DropKeep::none());
    let mut set = InstructionSet::new();
    set.finalize(false);
    assert_eq!(set.len(), 0);
    set.finalize(true);
    assert_eq!(set.instr, vec![end]);
    set.finalize(true);
    assert_eq!(set.instr, vec![end]);
    set.op_drop();
    set.finalize(true);
    assert_eq!(set.instr, vec![end, Instruction::Drop, end]);
}

fn encoded(instr: Instruction) -> Vec<u8> {
    let mut bytes = vec![];
    let size = instr.write_binary_to_vec(&mut bytes);
    assert_eq!(size, Ok(bytes.len()));
    bytes
}

#[test]
fn instructions_have_a_binary_form() {
    assert_eq!(encoded(Instruction::LocalGet(0x0102_0304)), vec![0x00, 1, 2, 3, 4]);
    assert_eq!(encoded(Instruction::Br(BranchOffset(-2))), vec![0x02, 0xff, 0xff, 0xff, 0xfe]);
    assert_eq!(encoded(Instruction::BrIndirect), vec![0x07]);
    assert_eq!(
        encoded(Instruction::Return(DropKeep { drop: 0x0102, keep: 3 })),
        vec![0x08, 1, 2, 0, 3]
    );
    assert_eq!(
        encoded(Instruction::I64Const(value(0x0102_0304_0506_0708))),
        vec![0x17, 1, 2, 3, 4, 5, 6, 7, 8]
    );
    assert_eq!(
        encoded(Instruction::Operator { code: 0x6a, immediate: 1 }),
        vec![0x1d, 0x6a, 0, 0, 0, 0, 0, 0, 0, 1]
    );
}

#[test]
fn a_full_sink_takes_nothing() {
    let mut writer = BinaryFormatWriter::new(7);
    assert_eq!(Instruction::GlobalSet(5).write_binary(&mut writer), Ok(5));
    assert_eq!(
        Instruction::GlobalSet(6).write_binary(&mut writer),
        Err(BinaryFormatError::NeedMore(3))
    );
    assert_eq!(Instruction::Drop.write_binary(&mut writer), Ok(1));
    assert_eq!(writer.to_vec(), vec![0x11, 0, 0, 0, 5, 0x10]);
}

#[test]
fn jumps_and_references_can_be_patched() {
    let mut jump = Instruction::BrIfNez(BranchOffset(4));
    assert_eq!(jump.get_jump_offset(), Some(BranchOffset(4)));
    jump.update_branch_offset(BranchOffset(-9));
    assert_eq!(jump, Instruction::BrIfNez(BranchOffset(-9)));
    jump.update_call_index(1);
    assert_eq!(jump, Instruction::BrIfNez(BranchOffset(-9)));
    let mut reference = Instruction::RefFunc(4);
    assert_eq!(reference.get_jump_offset(), None);
    reference.update_call_index(8);
    assert_eq!(reference, Instruction::RefFunc(8));
    reference.update_branch_offset(BranchOffset(1));
    assert_eq!(reference, Instruction::RefFunc(8));
}

#[test]
fn linker_finds_the_last_entry_of_a_name() {
    let name = |module: &str, field: &str| ImportName {
        module: module.to_string(),
        field: field.to_string(),
    };
    let mut linker = ImportLinker::new();
    assert_eq!(linker.get(&name("env", "read")), None);
    linker.insert_function(name("env", "read"), 1);
    linker.insert_function(name("env", "write"), 2);
    linker.insert_function(name("env", "read"), 3);
    assert_eq!(linker.get(&name("env", "read")), Some(3));
    assert_eq!(linker.get(&name("env", "write")), Some(2));
    assert_eq!(linker.get(&name("write", "env")), None);
}

#[test]
fn expressions_are_constants_or_references() {
    assert_eq!(ConstExpr::Const(value(3)).eval_const(), Some(value(3)));
    assert_eq!(ConstExpr::Const(value(3)).funcref(), None);
    assert_eq!(ConstExpr::FuncRef(3).eval_const(), None);
    assert_eq!(ConstExpr::FuncRef(3).funcref(), Some(3));
    assert_eq!(ConstExpr::GlobalGet(3).eval_const(), None);
    assert_eq!(ConstExpr::GlobalGet(3).funcref(), None);
    assert_eq!(ExternIdx::Func(2).into_func_idx(), Some(2));
    assert_eq!(ExternIdx::Memory(2).into_func_idx(), None);
}

#[test]
fn new_engine_is_empty() {
    let mut config = Config::default();
    config.consume_fuel(true);
    let engine = Engine::new(&config);
    assert!(engine.consume_fuel);
    assert_eq!(engine.resolve_const(0), None);
    assert!(engine.func_bodies.is_empty());
}
