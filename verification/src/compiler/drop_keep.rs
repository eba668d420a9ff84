//! The code that drops values from below the top of the stack.

use crate::compiler::CompilerError;
use crate::compiler::Translator;
use crate::instruction::DropKeep;
use crate::instruction::Instruction;
use crate::instruction_set::InstructionSet;
use vstd::prelude::*;

verus! {

/// The code that drops `drop` values from below the top `keep` values.
///
/// Where no more values are kept than dropped, each kept value is popped into the slot that
/// it ends up in, and what is left is dropped. Else the kept values are copied down, the
/// lowest first, and what is left on top is dropped.
pub open spec fn drop_keep_code(drop: nat, keep: nat) -> Seq<Instruction> {
    if drop == 0 {
        Seq::empty()
    } else if keep <= drop {
        Seq::new(keep, |i: int| Instruction::LocalSet(drop as u32)) + Seq::new(
            (drop - keep) as nat,
            |i: int| Instruction::Drop,
        )
    } else {
        copy_down_code(drop, keep, keep) + Seq::new(drop, |i: int| Instruction::Drop)
    }
}

/// The code that copies the lowest `n` of the top `keep` values down by `drop` slots.
pub open spec fn copy_down_code(drop: nat, keep: nat, n: nat) -> Seq<Instruction>
    decreases n,
{
    if n == 0 {
        Seq::empty()
    } else {
        let i = (n - 1) as nat;
        copy_down_code(drop, keep, i) + seq![
            Instruction::LocalGet((keep - 1 - i) as u32),
            Instruction::LocalSet((drop + keep - i) as u32),
        ]
    }
}

impl DropKeep {
    /// The code that drops and keeps as the pair says.
    pub open spec fn code(self) -> Seq<Instruction> {
        drop_keep_code(self.drop as nat, self.keep as nat)
    }
}

proof fn lemma_copy_down_len(drop: nat, keep: nat, n: nat)
    ensures
        copy_down_code(drop, keep, n).len() == 2 * n,
    decreases n,
{
    if n > 0 {
        lemma_copy_down_len(drop, keep, (n - 1) as nat);
    }
}

/// The code of a pair is short.
pub proof fn lemma_drop_keep_len(drop_keep: DropKeep)
    ensures
        drop_keep.code().len() <= 3 * 0xffff,
{
    lemma_copy_down_len(drop_keep.drop as nat, drop_keep.keep as nat, drop_keep.keep as nat);
}

fn translate_drop_keep(drop_keep: DropKeep, result: &mut InstructionSet)
    ensures
        final(result)@ == old(result)@ + drop_keep.code(),
{
    let drop: u32 = drop_keep.drop as u32;
    let keep: u32 = drop_keep.keep as u32;
    if drop == 0 {
        assert(result@ =~= old(result)@ + drop_keep.code());
        return;
    }
    if keep <= drop {
        let mut i: u32 = 0;
        while i < keep
            invariant
                i <= keep <= drop,
                result@ =~= old(result)@ + Seq::new(
                    i as nat,
                    |k: int| Instruction::LocalSet(drop as u32),
                ),
            decreases keep - i,
        {
            result.op_local_set(drop);
            i += 1;
        }
        let ghost middle = result@;
        let rest: u32 = drop - keep;
        let mut i: u32 = 0;
        while i < rest
            invariant
                i <= rest,
                result@ =~= middle + Seq::new(i as nat, |k: int| Instruction::Drop),
            decreases rest - i,
        {
            result.op_drop();
            i += 1;
        }
    } else {
        let mut i: u32 = 0;
        assert(copy_down_code(drop as nat, keep as nat, 0) =~= Seq::empty());
        while i < keep
            invariant
                i <= keep <= 0xffff,
                drop <= 0xffff,
                result@ =~= old(result)@ + copy_down_code(drop as nat, keep as nat, i as nat),
            decreases keep - i,
        {
            result.op_local_get(keep - 1 - i);
            result.op_local_set(drop + keep - i);
            i += 1;
        }
        let ghost middle = result@;
        let mut i: u32 = 0;
        while i < drop
            invariant
                i <= drop,
                result@ =~= middle + Seq::new(i as nat, |k: int| Instruction::Drop),
            decreases drop - i,
        {
            result.op_drop();
            i += 1;
        }
    }
    assert(result@ =~= old(result)@ + drop_keep.code());
}

impl Translator for DropKeep {
    open spec fn translation(&self) -> Result<Seq<Instruction>, CompilerError> {
        Ok(self.code())
    }

    fn translate(&self, result: &mut InstructionSet) -> (r: Result<(), CompilerError>) {
        translate_drop_keep(*self, result);
        Ok(())
    }
}

/// A pair whose dropped values lie on top of a return address, which ends up on top.
#[derive(Clone, Copy, Debug, PartialEq, Eq, Structural)]
pub struct DropKeepWithReturnParam(pub DropKeep);

impl Translator for DropKeepWithReturnParam {
    /// The return address is copied to the top, where it is kept, and its first copy is
    /// dropped. It is on top already where nothing else is dropped or kept.
    open spec fn translation(&self) -> Result<Seq<Instruction>, CompilerError> {
        let (drop, keep) = (self.0.drop, self.0.keep);
        if drop == 0 && keep == 0 {
            Ok(Seq::empty())
        } else if drop == u16::MAX || keep == u16::MAX {
            Err(CompilerError::DropKeepOutOfBounds)
        } else {
            Ok(
                seq![Instruction::LocalGet((drop + keep) as u32)] + drop_keep_code(
                    (drop + 1) as nat,
                    (keep + 1) as nat,
                ),
            )
        }
    }

    fn translate(&self, result: &mut InstructionSet) -> (r: Result<(), CompilerError>) {
        let drop: u16 = self.0.drop;
        let keep: u16 = self.0.keep;
        if drop == 0 && keep == 0 {
            assert(result@ =~= old(result)@ + Seq::<Instruction>::empty());
            return Ok(());
        }
        match DropKeep::new(drop as usize + 1, keep as usize + 1) {
            Ok(drop_keep) => {
                result.op_local_get(drop as u32 + keep as u32);
                translate_drop_keep(drop_keep, result);
                assert(result@ =~= old(result)@ + self.translation()->Ok_0);
                Ok(())
            },
            Err(_) => Err(CompilerError::DropKeepOutOfBounds),
        }
    }
}

} // verus!
