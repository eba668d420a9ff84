//! A growing list of instructions.

use crate::common::UntypedValue;
use crate::instruction::BranchOffset;
use crate::instruction::DropKeep;
use crate::instruction::Instruction;
use crate::machine::le_value;
use vstd::prelude::*;

verus! {

/// Instructions in the order in which they were added.
pub struct InstructionSet {
    pub instr: Vec<Instruction>,
}

impl View for InstructionSet {
    type V = Seq<Instruction>;

    open spec fn view(&self) -> Seq<Instruction> {
        self.instr@
    }
}

/// The number of bytes that the next store of a data segment writes, where `left` bytes
/// are left of it.
pub open spec fn store_width(left: int) -> int {
    if left >= 8 {
        8
    } else if left >= 4 {
        4
    } else if left >= 2 {
        2
    } else {
        1
    }
}

/// The code that stores one, two, four or eight bytes of a data segment at `offset`, those
/// from `from` on.
pub open spec fn store_code(offset: u32, bytes: Seq<u8>, from: int) -> Seq<Instruction> {
    let width = store_width(bytes.len() - from);
    let value = UntypedValue::of_u64(le_value(bytes.subrange(from, from + width)) as u64);
    seq![
        Instruction::I32Const(UntypedValue::of_u32(offset)),
        if width == 8 {
            Instruction::I64Const(value)
        } else {
            Instruction::I32Const(value)
        },
        if width == 8 {
            Instruction::I64Store(from as u32)
        } else if width == 4 {
            Instruction::I32Store(from as u32)
        } else if width == 2 {
            Instruction::I32Store16(from as u32)
        } else {
            Instruction::I32Store8(from as u32)
        },
    ]
}

/// The code that writes a data segment at `offset` into the memory, from its byte `from`
/// on: one store after the other, each as wide as the bytes that are left allow.
pub open spec fn memory_code(offset: u32, bytes: Seq<u8>, from: int) -> Seq<Instruction>
    decreases bytes.len() - from,
{
    if from >= bytes.len() {
        Seq::empty()
    } else {
        store_code(offset, bytes, from) + memory_code(
            offset,
            bytes,
            from + store_width(bytes.len() - from),
        )
    }
}

/// Up to eight bytes stand for a number of 64 bits.
pub proof fn lemma_le_value_bound(bytes: Seq<u8>)
    requires
        bytes.len() <= 8,
    ensures
        bytes.len() <= 7 ==> 256 * le_value(bytes) + 255 <= u64::MAX,
        le_value(bytes) <= u64::MAX,
    decreases bytes.len(),
{
    reveal_with_fuel(le_value, 9);
}

/// The number that `width` bytes stand for, those from `from` on, the least significant
/// byte first.
fn little_endian(bytes: &Vec<u8>, from: usize, width: usize) -> (value: u64)
    requires
        width <= 8,
        from + width <= bytes@.len(),
    ensures
        value == le_value(bytes@.subrange(from as int, from + width)),
{
    let total: usize = bytes.len();
    let mut value: u64 = 0;
    let mut left: usize = width;
    while left > 0
        invariant
            left <= width <= 8,
            from + width <= total == bytes@.len(),
            value == le_value(bytes@.subrange(from + left, from + width)),
        decreases left,
    {
        let ghost done = bytes@.subrange(from + left, from + width);
        proof {
            lemma_le_value_bound(done);
        }
        left -= 1;
        value = value * 256 + bytes[from + left] as u64;
        assert(bytes@.subrange(from + left, from + width).skip(1) =~= done);
    }
    value
}

impl InstructionSet {
    pub fn new() -> (set: InstructionSet)
        ensures
            set@ == Seq::<Instruction>::empty(),
    {
        InstructionSet { instr: Vec::new() }
    }

    /// The number of instructions. It is 32 bits wide and wraps.
    pub fn len(&self) -> (len: u32)
        ensures
            len == self@.len() as u32,
    {
        self.instr.len() as u32
    }

    pub fn push(&mut self, instr: Instruction)
        ensures
            final(self)@ == old(self)@.push(instr),
    {
        self.instr.push(instr);
    }

    pub fn op_local_get(&mut self, depth: u32)
        ensures
            final(self)@ == old(self)@.push(Instruction::LocalGet(depth)),
    {
        self.push(Instruction::LocalGet(depth));
    }

    pub fn op_local_set(&mut self, depth: u32)
        ensures
            final(self)@ == old(self)@.push(Instruction::LocalSet(depth)),
    {
        self.push(Instruction::LocalSet(depth));
    }

    pub fn op_drop(&mut self)
        ensures
            final(self)@ == old(self)@.push(Instruction::Drop),
    {
        self.push(Instruction::Drop);
    }

    pub fn op_br(&mut self, offset: BranchOffset)
        ensures
            final(self)@ == old(self)@.push(Instruction::Br(offset)),
    {
        self.push(Instruction::Br(offset));
    }

    pub fn op_br_if_eqz(&mut self, offset: BranchOffset)
        ensures
            final(self)@ == old(self)@.push(Instruction::BrIfEqz(offset)),
    {
        self.push(Instruction::BrIfEqz(offset));
    }

    pub fn op_br_indirect(&mut self)
        ensures
            final(self)@ == old(self)@.push(Instruction::BrIndirect),
    {
        self.push(Instruction::BrIndirect);
    }

    /// A return that drops and keeps nothing.
    pub fn op_return(&mut self)
        ensures
            final(self)@ == old(self)@.push(Instruction::Return(DropKeep::nothing())),
    {
        self.push(Instruction::Return(DropKeep::none()));
    }

    /// A conditional return that drops and keeps nothing.
    pub fn op_return_if_nez(&mut self)
        ensures
            final(self)@ == old(self)@.push(Instruction::ReturnIfNez(DropKeep::nothing())),
    {
        self.push(Instruction::ReturnIfNez(DropKeep::none()));
    }

    pub fn op_call(&mut self, func: u32)
        ensures
            final(self)@ == old(self)@.push(Instruction::Call(func)),
    {
        self.push(Instruction::Call(func));
    }

    pub fn op_call_internal(&mut self, func: u32)
        ensures
            final(self)@ == old(self)@.push(Instruction::CallInternal(func)),
    {
        self.push(Instruction::CallInternal(func));
    }

    pub fn op_global_set(&mut self, global: u32)
        ensures
            final(self)@ == old(self)@.push(Instruction::GlobalSet(global)),
    {
        self.push(Instruction::GlobalSet(global));
    }

    pub fn op_table_grow(&mut self, table: u32)
        ensures
            final(self)@ == old(self)@.push(Instruction::TableGrow(table)),
    {
        self.push(Instruction::TableGrow(table));
    }

    pub fn op_table_get(&mut self, table: u32)
        ensures
            final(self)@ == old(self)@.push(Instruction::TableGet(table)),
    {
        self.push(Instruction::TableGet(table));
    }

    pub fn op_table_set(&mut self, table: u32)
        ensures
            final(self)@ == old(self)@.push(Instruction::TableSet(table)),
    {
        self.push(Instruction::TableSet(table));
    }

    pub fn op_ref_func(&mut self, func: u32)
        ensures
            final(self)@ == old(self)@.push(Instruction::RefFunc(func)),
    {
        self.push(Instruction::RefFunc(func));
    }

    pub fn op_i32_const(&mut self, value: u32)
        ensures
            final(self)@ == old(self)@.push(Instruction::I32Const(UntypedValue::of_u32(value))),
    {
        self.push(Instruction::I32Const(UntypedValue::from_u32(value)));
    }

    pub fn op_i64_const(&mut self, value: UntypedValue)
        ensures
            final(self)@ == old(self)@.push(Instruction::I64Const(value)),
    {
        self.push(Instruction::I64Const(value));
    }

    /// Adds the code that writes `bytes` into the linear memory, from `offset` on.
    pub fn add_memory(&mut self, offset: u32, bytes: &Vec<u8>)
        ensures
            final(self)@ == old(self)@ + memory_code(offset, bytes@, 0),
    {
        let len: usize = bytes.len();
        let mut from: usize = 0;
        while from < len
            invariant
                from <= len == bytes@.len(),
                self@ + memory_code(offset, bytes@, from as int) == old(self)@ + memory_code(
                    offset,
                    bytes@,
                    0,
                ),
            decreases len - from,
        {
            let ghost before = self@;
            let left: usize = len - from;
            let width: usize = if left >= 8 {
                8
            } else if left >= 4 {
                4
            } else if left >= 2 {
                2
            } else {
                1
            };
            let value: u64 = little_endian(bytes, from, width);
            let value: UntypedValue = UntypedValue::from_u64(value);
            self.op_i32_const(offset);
            if width == 8 {
                self.op_i64_const(value);
                self.push(Instruction::I64Store(from as u32));
            } else {
                self.push(Instruction::I32Const(value));
                if width == 4 {
                    self.push(Instruction::I32Store(from as u32));
                } else if width == 2 {
                    self.push(Instruction::I32Store16(from as u32));
                } else {
                    self.push(Instruction::I32Store8(from as u32));
                }
            }
            assert(self@ =~= before + store_code(offset, bytes@, from as int));
            assert(self@ + memory_code(offset, bytes@, from + width) =~= before + memory_code(
                offset,
                bytes@,
                from as int,
            ));
            from += width;
        }
        assert(self@ + memory_code(offset, bytes@, len as int) =~= self@);
    }

    /// Ends the list. Where `inject_return` is set, it ends with a return.
    pub fn finalize(&mut self, inject_return: bool)
        ensures
            !inject_return ==> final(self)@ == old(self)@,
            inject_return && old(self)@.len() > 0 && old(self)@.last() is Return ==> final(self)@
                == old(self)@,
            inject_return && !(old(self)@.len() > 0 && old(self)@.last() is Return) ==>
                final(self)@ == old(self)@.push(Instruction::Return(DropKeep::nothing())),
    {
        if inject_return {
            let len: usize = self.instr.len();
            if len > 0 {
                match self.instr[len - 1] {
                    Instruction::Return(_) => {
                        return;
                    },
                    _ => {},
                }
            }
            self.op_return();
        }
    }
}

} // verus!
