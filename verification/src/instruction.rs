//! The bytecode instructions.

use crate::common::UntypedValue;
use vstd::prelude::*;

verus! {

/// Distance from a branch to its target.
#[derive(Clone, Copy, Debug, PartialEq, Eq, Structural)]
pub struct BranchOffset(pub i32);

impl BranchOffset {
    pub fn from_i32(offset: i32) -> (b: BranchOffset)
        ensures
            b == BranchOffset(offset),
    {
        BranchOffset(offset)
    }

    pub fn to_i32(self) -> (offset: i32)
        ensures
            offset == self.0,
    {
        self.0
    }
}

/// How many values a branch or a return drops, and how many on top of them it keeps.
#[derive(Clone, Copy, Debug, PartialEq, Eq, Structural)]
pub struct DropKeep {
    pub drop: u16,
    pub keep: u16,
}

/// A number of dropped or kept values that does not fit.
#[derive(Clone, Copy, Debug, PartialEq, Eq, Structural)]
pub enum DropKeepError {
    DropOutOfBounds,
    KeepOutOfBounds,
}

impl DropKeep {
    /// The pair that drops and keeps nothing.
    pub open spec fn nothing() -> DropKeep {
        DropKeep { drop: 0, keep: 0 }
    }

    pub fn none() -> (dk: DropKeep)
        ensures
            dk == Self::nothing(),
    {
        DropKeep { drop: 0, keep: 0 }
    }

    /// Pairs the two numbers, where both fit in 16 bits.
    pub fn new(drop: usize, keep: usize) -> (r: Result<DropKeep, DropKeepError>)
        ensures
            drop > u16::MAX ==> r == Err::<DropKeep, _>(DropKeepError::DropOutOfBounds),
            drop <= u16::MAX && keep > u16::MAX ==> r == Err::<DropKeep, _>(
                DropKeepError::KeepOutOfBounds,
            ),
            drop <= u16::MAX && keep <= u16::MAX ==> r == Ok::<_, DropKeepError>(
                DropKeep { drop: drop as u16, keep: keep as u16 },
            ),
    {
        if drop > 0xffff {
            return Err(DropKeepError::DropOutOfBounds);
        }
        if keep > 0xffff {
            return Err(DropKeepError::KeepOutOfBounds);
        }
        Ok(DropKeep { drop: drop as u16, keep: keep as u16 })
    }
}

/// An instruction.
///
/// Instructions that the compiler reads, writes or patches have variants of their own. All
/// others, which it copies, are operators: an operation code with its immediate.
///
/// The depth of a local counts values from the top of the stack as it stands before the
/// instruction; the top is at depth zero.
#[derive(Clone, Copy, Debug, PartialEq, Eq, Structural)]
pub enum Instruction {
    LocalGet(u32),
    LocalSet(u32),
    Br(BranchOffset),
    BrIfEqz(BranchOffset),
    BrIfNez(BranchOffset),
    BrAdjust(BranchOffset),
    BrAdjustIfNez(BranchOffset),
    BrIndirect,
    Return(DropKeep),
    ReturnIfNez(DropKeep),
    ReturnCallInternal(u32),
    ReturnCall(u32),
    ReturnCallIndirect(u32),
    CallInternal(u32),
    Call(u32),
    CallIndirect(u32),
    Drop,
    GlobalSet(u32),
    TableGrow(u32),
    TableGet(u32),
    TableSet(u32),
    RefFunc(u32),
    I32Const(UntypedValue),
    I64Const(UntypedValue),
    ConstRef(u32),
    I32Store8(u32),
    I32Store16(u32),
    I32Store(u32),
    I64Store(u32),
    Operator { code: u8, immediate: u64 },
}

impl Instruction {
    /// The offset of a jump; other instructions have none.
    pub open spec fn jump_offset(self) -> Option<BranchOffset> {
        match self {
            Instruction::Br(offset) => Some(offset),
            Instruction::BrIfEqz(offset) => Some(offset),
            Instruction::BrIfNez(offset) => Some(offset),
            Instruction::BrAdjust(offset) => Some(offset),
            Instruction::BrAdjustIfNez(offset) => Some(offset),
            _ => None,
        }
    }

    /// The same jump with another offset; other instructions stay as they are.
    pub open spec fn with_branch_offset(self, offset: BranchOffset) -> Instruction {
        match self {
            Instruction::Br(_) => Instruction::Br(offset),
            Instruction::BrIfEqz(_) => Instruction::BrIfEqz(offset),
            Instruction::BrIfNez(_) => Instruction::BrIfNez(offset),
            Instruction::BrAdjust(_) => Instruction::BrAdjust(offset),
            Instruction::BrAdjustIfNez(_) => Instruction::BrAdjustIfNez(offset),
            _ => self,
        }
    }

    /// The function whose code an instruction refers to.
    pub open spec fn code_reference(self) -> Option<u32> {
        match self {
            Instruction::CallInternal(func) => Some(func),
            Instruction::ReturnCallInternal(func) => Some(func),
            Instruction::RefFunc(func) => Some(func),
            _ => None,
        }
    }

    /// The same reference to another function; other instructions stay as they are.
    pub open spec fn with_call_index(self, index: u32) -> Instruction {
        match self {
            Instruction::CallInternal(_) => Instruction::CallInternal(index),
            Instruction::ReturnCallInternal(_) => Instruction::ReturnCallInternal(index),
            Instruction::RefFunc(_) => Instruction::RefFunc(index),
            _ => self,
        }
    }

    pub fn get_jump_offset(&self) -> (offset: Option<BranchOffset>)
        ensures
            offset == self.jump_offset(),
    {
        match *self {
            Instruction::Br(offset) => Some(offset),
            Instruction::BrIfEqz(offset) => Some(offset),
            Instruction::BrIfNez(offset) => Some(offset),
            Instruction::BrAdjust(offset) => Some(offset),
            Instruction::BrAdjustIfNez(offset) => Some(offset),
            _ => None,
        }
    }

    pub fn update_branch_offset(&mut self, offset: BranchOffset)
        ensures
            *final(self) == old(self).with_branch_offset(offset),
    {
        match *self {
            Instruction::Br(_) => *self = Instruction::Br(offset),
            Instruction::BrIfEqz(_) => *self = Instruction::BrIfEqz(offset),
            Instruction::BrIfNez(_) => *self = Instruction::BrIfNez(offset),
            Instruction::BrAdjust(_) => *self = Instruction::BrAdjust(offset),
            Instruction::BrAdjustIfNez(_) => *self = Instruction::BrAdjustIfNez(offset),
            _ => {},
        }
    }

    pub fn update_call_index(&mut self, index: u32)
        ensures
            *final(self) == old(self).with_call_index(index),
    {
        match *self {
            Instruction::CallInternal(_) => *self = Instruction::CallInternal(index),
            Instruction::ReturnCallInternal(_) => *self = Instruction::ReturnCallInternal(index),
            Instruction::RefFunc(_) => *self = Instruction::RefFunc(index),
            _ => {},
        }
    }
}

} // verus!
