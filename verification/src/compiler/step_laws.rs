//! What holds of the code for one instruction of a function body.

use crate::common::UntypedValue;
use crate::compiler::drop_keep::lemma_drop_keep_len;
use crate::compiler::drop_keep::DropKeepWithReturnParam;
use crate::compiler::laws::law_drop_keep;
use crate::compiler::laws::law_drop_keep_with_return_param;
use crate::compiler::translation::Source;
use crate::compiler::CompilerError;
use crate::compiler::Translator;
use crate::instruction::BranchOffset;
use crate::instruction::DropKeep;
use crate::instruction::Instruction;
use crate::machine::Machine;
use vstd::prelude::*;

verus! {

/// A stack as an instruction with a pair finds it: values on which it has no effect, as many
/// as the pair drops, and as many as it keeps.
pub open spec fn stacked(
    machine: Machine,
    base: Seq<UntypedValue>,
    dropped: Seq<UntypedValue>,
    kept: Seq<UntypedValue>,
    pair: DropKeep,
) -> bool {
    &&& machine.stack == base + dropped + kept
    &&& dropped.len() == pair.drop
    &&& kept.len() == pair.keep
}

/// A pair always has code, and what the code does to a stack is to drop the values that the
/// pair drops.
pub proof fn law_pair_drops_and_keeps(
    machine: Machine,
    base: Seq<UntypedValue>,
    dropped: Seq<UntypedValue>,
    kept: Seq<UntypedValue>,
    pair: DropKeep,
)
    requires
        stacked(machine, base, dropped, kept, pair),
    ensures
        pair.translation() == Ok::<_, CompilerError>(pair.code()),
        machine.run(pair.code()) == Some(Machine { stack: base + kept, ..machine }),
{
    let len = machine.stack.len();
    law_drop_keep(machine, dropped.len(), kept.len());
    assert(machine.stack.take(len - dropped.len() - kept.len()) + machine.stack.skip(
        len - kept.len(),
    ) =~= base + kept);
}

/// A pair with a return address has code unless one more value cannot be dropped or kept.
pub proof fn law_return_address_bounds(pair: DropKeep)
    ensures
        DropKeepWithReturnParam(pair).translation() is Err <==> pair.drop == 0xffff || pair.keep
            == 0xffff,
        DropKeepWithReturnParam(pair).translation() is Err
            ==> DropKeepWithReturnParam(pair).translation() == Err::<Seq<Instruction>, _>(
            CompilerError::DropKeepOutOfBounds,
        ),
{
}

/// An adjusting branch drops and keeps what its return says, and then branches. A return
/// stands behind the branch.
pub proof fn law_adjusting_branch(
    source: Source,
    len: nat,
    body: Seq<Instruction>,
    pos: int,
    is_main: bool,
    offset: BranchOffset,
    pair: DropKeep,
    machine: Machine,
    base: Seq<UntypedValue>,
    dropped: Seq<UntypedValue>,
    kept: Seq<UntypedValue>,
)
    requires
        0 <= pos < body.len() - 1,
        body[pos] == Instruction::BrAdjust(offset),
        body[pos + 1] == Instruction::Return(pair),
        stacked(machine, base, dropped, kept, pair),
    ensures
        ({
            let step = source.step(len, body, pos, is_main);
            let code = step.emitted.code;
            &&& step.emitted.result is Ok
            &&& step.next == pos + 2
            &&& code.len() >= 2
            &&& machine.run(code.take(code.len() - 2)) == Some(
                Machine { stack: base + kept, ..machine },
            )
            &&& code[code.len() - 2] == Instruction::Br(offset)
            &&& code.last() == Instruction::Return(DropKeep { drop: 0, keep: 0 })
        }),
{
    let code = source.step(len, body, pos, is_main).emitted.code;
    law_pair_drops_and_keeps(machine, base, dropped, kept, pair);
    assert(code.take(code.len() - 2) =~= pair.code());
}

/// A conditional adjusting branch begins with a branch that, where the condition is zero,
/// goes to the branch proper. Between the two, values are dropped and kept as the return
/// says. A return stands at the end.
pub proof fn law_conditional_adjusting_branch(
    source: Source,
    len: nat,
    body: Seq<Instruction>,
    pos: int,
    is_main: bool,
    offset: BranchOffset,
    pair: DropKeep,
    machine: Machine,
    base: Seq<UntypedValue>,
    dropped: Seq<UntypedValue>,
    kept: Seq<UntypedValue>,
)
    requires
        0 <= pos < body.len() - 1,
        body[pos] == Instruction::BrAdjustIfNez(offset),
        body[pos + 1] == Instruction::Return(pair),
        stacked(machine, base, dropped, kept, pair),
    ensures
        ({
            let step = source.step(len, body, pos, is_main);
            let code = step.emitted.code;
            &&& step.emitted.result is Ok
            &&& step.next == pos + 2
            &&& code.len() >= 3
            &&& code[0] == Instruction::BrIfEqz(BranchOffset((code.len() - 2) as i32))
            &&& code.len() - 2 <= i32::MAX
            &&& machine.run(code.subrange(1, code.len() - 2)) == Some(
                Machine { stack: base + kept, ..machine },
            )
            &&& code[code.len() - 2] == Instruction::Br(offset)
            &&& code.last() == Instruction::Return(DropKeep { drop: 0, keep: 0 })
        }),
{
    let code = source.step(len, body, pos, is_main).emitted.code;
    law_pair_drops_and_keeps(machine, base, dropped, kept, pair);
    lemma_drop_keep_len(pair);
    assert(code.subrange(1, code.len() - 2) =~= pair.code());
}

/// A return from `main` drops and keeps what its pair says, and then returns.
pub proof fn law_return_from_main(
    source: Source,
    len: nat,
    body: Seq<Instruction>,
    pos: int,
    pair: DropKeep,
    machine: Machine,
    base: Seq<UntypedValue>,
    dropped: Seq<UntypedValue>,
    kept: Seq<UntypedValue>,
)
    requires
        0 <= pos < body.len(),
        body[pos] == Instruction::Return(pair),
        stacked(machine, base, dropped, kept, pair),
    ensures
        ({
            let step = source.step(len, body, pos, true);
            let code = step.emitted.code;
            &&& step.emitted.result is Ok
            &&& step.next == pos + 1
            &&& code.len() >= 1
            &&& machine.run(code.drop_last()) == Some(Machine { stack: base + kept, ..machine })
            &&& code.last() == Instruction::Return(DropKeep { drop: 0, keep: 0 })
        }),
{
    let code = source.step(len, body, pos, true).emitted.code;
    law_pair_drops_and_keeps(machine, base, dropped, kept, pair);
    assert(code.drop_last() =~= pair.code());
}

/// A return from another function drops and keeps what its pair says, takes the return
/// address from below the dropped values to the top, and branches to it. It fails where there
/// is no room for the address.
pub proof fn law_return_from_function(
    source: Source,
    len: nat,
    body: Seq<Instruction>,
    pos: int,
    pair: DropKeep,
    machine: Machine,
    base: Seq<UntypedValue>,
    address: UntypedValue,
    dropped: Seq<UntypedValue>,
    kept: Seq<UntypedValue>,
)
    requires
        0 <= pos < body.len(),
        body[pos] == Instruction::Return(pair),
        stacked(machine, base.push(address), dropped, kept, pair),
    ensures
        ({
            let step = source.step(len, body, pos, false);
            let code = step.emitted.code;
            if pair.drop == 0xffff || pair.keep == 0xffff {
                &&& step.emitted.result == Err::<(), _>(CompilerError::DropKeepOutOfBounds)
                &&& code.len() == 0
                &&& step.next == pos
            } else {
                &&& step.emitted.result is Ok
                &&& step.next == pos + 1
                &&& code.len() >= 1
                &&& machine.run(code.drop_last()) == Some(
                    Machine { stack: base + kept.push(address), ..machine },
                )
                &&& code.last() == Instruction::BrIndirect
            }
        }),
{
    let code = source.step(len, body, pos, false).emitted.code;
    if pair.drop != 0xffff && pair.keep != 0xffff {
        law_drop_keep_with_return_param(machine, base, address, dropped, kept);
        assert(code.drop_last() =~= DropKeepWithReturnParam(pair).translation()->Ok_0);
    }
}

/// A tail call drops and keeps what its return says, takes the address from below the dropped
/// values to the top, and branches to it. It fails where there is no room for the address.
pub proof fn law_tail_call(
    source: Source,
    len: nat,
    body: Seq<Instruction>,
    pos: int,
    is_main: bool,
    pair: DropKeep,
    machine: Machine,
    base: Seq<UntypedValue>,
    address: UntypedValue,
    dropped: Seq<UntypedValue>,
    kept: Seq<UntypedValue>,
)
    requires
        0 <= pos < body.len() - 1,
        body[pos] is ReturnCallInternal,
        body[pos + 1] == Instruction::Return(pair),
        stacked(machine, base.push(address), dropped, kept, pair),
    ensures
        ({
            let step = source.step(len, body, pos, is_main);
            let code = step.emitted.code;
            if pair.drop == 0xffff || pair.keep == 0xffff {
                &&& step.emitted.result == Err::<(), _>(CompilerError::DropKeepOutOfBounds)
                &&& code.len() == 0
                &&& step.next == pos + 1
            } else {
                &&& step.emitted.result is Ok
                &&& step.next == pos + 2
                &&& code.len() >= 1
                &&& machine.run(code.drop_last()) == Some(
                    Machine { stack: base + kept.push(address), ..machine },
                )
                &&& code.last() == Instruction::BrIndirect
            }
        }),
{
    let code = source.step(len, body, pos, is_main).emitted.code;
    if pair.drop != 0xffff && pair.keep != 0xffff {
        law_drop_keep_with_return_param(machine, base, address, dropped, kept);
        assert(code.drop_last() =~= DropKeepWithReturnParam(pair).translation()->Ok_0);
    }
}

/// A conditional return begins with a branch that, where the condition is zero, goes to the
/// return proper. Between the two, values are dropped and kept as the pair says.
pub proof fn law_conditional_return(
    source: Source,
    len: nat,
    body: Seq<Instruction>,
    pos: int,
    is_main: bool,
    pair: DropKeep,
    machine: Machine,
    base: Seq<UntypedValue>,
    dropped: Seq<UntypedValue>,
    kept: Seq<UntypedValue>,
)
    requires
        0 <= pos < body.len(),
        body[pos] == Instruction::ReturnIfNez(pair),
        stacked(machine, base, dropped, kept, pair),
    ensures
        ({
            let step = source.step(len, body, pos, is_main);
            let code = step.emitted.code;
            &&& step.emitted.result is Ok
            &&& step.next == pos + 1
            &&& code.len() >= 2
            &&& code[0] == Instruction::BrIfEqz(BranchOffset((code.len() - 1) as i32))
            &&& code.len() - 1 <= i32::MAX
            &&& machine.run(code.subrange(1, code.len() - 1)) == Some(
                Machine { stack: base + kept, ..machine },
            )
            &&& code.last() == Instruction::ReturnIfNez(DropKeep { drop: 0, keep: 0 })
        }),
{
    let code = source.step(len, body, pos, is_main).emitted.code;
    law_pair_drops_and_keeps(machine, base, dropped, kept, pair);
    lemma_drop_keep_len(pair);
    assert(code.subrange(1, code.len() - 1) =~= pair.code());
}

/// A call through a table drops and keeps what the return two places behind its table says,
/// reads the table, and branches to what it read.
pub proof fn law_indirect_call(
    source: Source,
    len: nat,
    body: Seq<Instruction>,
    pos: int,
    is_main: bool,
    table: u32,
    pair: DropKeep,
    machine: Machine,
    base: Seq<UntypedValue>,
    dropped: Seq<UntypedValue>,
    kept: Seq<UntypedValue>,
)
    requires
        0 <= pos < body.len() - 3,
        body[pos] is CallIndirect,
        body[pos + 1] == Instruction::TableGet(table),
        body[pos + 3] == Instruction::Return(pair),
        stacked(machine, base, dropped, kept, pair),
    ensures
        ({
            let step = source.step(len, body, pos, is_main);
            let code = step.emitted.code;
            &&& step.emitted.result is Ok
            &&& step.next == pos + 4
            &&& code.len() >= 2
            &&& machine.run(code.take(code.len() - 2)) == Some(
                Machine { stack: base + kept, ..machine },
            )
            &&& code[code.len() - 2] == Instruction::TableGet(table)
            &&& code.last() == Instruction::BrIndirect
        }),
{
    let code = source.step(len, body, pos, is_main).emitted.code;
    law_pair_drops_and_keeps(machine, base, dropped, kept, pair);
    assert(code.take(code.len() - 2) =~= pair.code());
}

/// An internal call pushes the place behind itself and then calls the same function.
pub proof fn law_internal_call(
    source: Source,
    len: nat,
    body: Seq<Instruction>,
    pos: int,
    is_main: bool,
    func: u32,
)
    requires
        0 <= pos < body.len(),
        body[pos] == Instruction::CallInternal(func),
        len + 2 <= u32::MAX,
    ensures
        ({
            let step = source.step(len, body, pos, is_main);
            &&& step.emitted.result is Ok
            &&& step.next == pos + 1
            &&& step.emitted.code == seq![
                Instruction::I32Const(UntypedValue { bits: (len + 2) as u64 }),
                Instruction::CallInternal(func),
            ]
        }),
{
}

/// A call of an import calls the host function that the linker has under the import's name.
/// It fails for an import that is no function or that does not exist, and where no linker has
/// the name.
pub proof fn law_host_call(
    source: Source,
    len: nat,
    body: Seq<Instruction>,
    pos: int,
    is_main: bool,
    func: u32,
)
    requires
        0 <= pos < body.len(),
        body[pos] == Instruction::Call(func),
        source.module.imports.items@.len() <= u32::MAX,
    ensures
        ({
            let step = source.step(len, body, pos, is_main);
            let items = source.module.imports.items@;
            let name = items[func as int]->Func_0;
            let key = (name.module@, name.field@);
            if func >= items.len() || items[func as int] !is Func {
                &&& step.emitted.result == Err::<(), _>(CompilerError::NotSupportedImport)
                &&& step.emitted.code.len() == 0
                &&& step.next == pos
            } else if source.linker is None || !source.linker->Some_0.contains_key(key) {
                &&& step.emitted.result == Err::<(), _>(CompilerError::UnknownImport(name))
                &&& step.emitted.code.len() == 0
                &&& step.next == pos
            } else {
                &&& step.emitted.result is Ok
                &&& step.emitted.code == seq![Instruction::Call(source.linker->Some_0[key])]
                &&& step.next == pos + 1
            }
        }),
{
}

/// What a host call of the compiler does is what the instruction for it does.
pub proof fn law_host_call_is_its_instruction(source: Source, len: nat, func: u32)
    ensures
        ({
            let step = source.step(len, seq![Instruction::Call(func)], 0, true);
            match source.host_call(func) {
                Ok(call) => step.emitted.result is Ok && step.emitted.code == seq![call],
                Err(error) => step.emitted.result == Err::<(), _>(error),
            }
        }),
{
}

/// A reference to a constant becomes the constant.
pub proof fn law_constant_reference(
    source: Source,
    len: nat,
    body: Seq<Instruction>,
    pos: int,
    is_main: bool,
    index: u32,
)
    requires
        0 <= pos < body.len(),
        body[pos] == Instruction::ConstRef(index),
        index < source.engine.consts@.len(),
    ensures
        ({
            let step = source.step(len, body, pos, is_main);
            &&& step.emitted.result is Ok
            &&& step.next == pos + 1
            &&& step.emitted.code == seq![Instruction::I64Const(source.engine.consts@[index as int])]
        }),
{
}

/// Instructions that have no code but themselves.
pub open spec fn plain(instr: Instruction) -> bool {
    &&& instr !is BrAdjust
    &&& instr !is BrAdjustIfNez
    &&& instr !is ReturnCallInternal
    &&& instr !is ReturnCall
    &&& instr !is ReturnCallIndirect
    &&& instr !is CallIndirect
    &&& instr !is Return
    &&& instr !is ReturnIfNez
    &&& instr !is CallInternal
    &&& instr !is Call
    &&& instr !is ConstRef
}

/// Any other instruction is copied.
pub proof fn law_plain_instruction_is_copied(
    source: Source,
    len: nat,
    body: Seq<Instruction>,
    pos: int,
    is_main: bool,
)
    requires
        0 <= pos < body.len(),
        plain(body[pos]),
    ensures
        ({
            let step = source.step(len, body, pos, is_main);
            &&& step.emitted.result is Ok
            &&& step.next == pos + 1
            &&& step.emitted.code == seq![body[pos]]
        }),
{
}

/// A body without instructions has no code.
pub proof fn law_end_of_body(source: Source, len: nat, body: Seq<Instruction>, is_main: bool)
    ensures
        ({
            let emitted = source.body_emitted(len, body, body.len() as int, is_main);
            emitted.result is Ok && emitted.code.len() == 0
        }),
{
}

/// The code of a body is that of its first instruction, with the place at which it stands
/// known, and then that of what is left. It ends where an instruction fails.
pub proof fn law_body_goes_instruction_by_instruction(
    source: Source,
    len: nat,
    body: Seq<Instruction>,
    pos: int,
    is_main: bool,
)
    requires
        0 <= pos < body.len(),
    ensures
        ({
            let first = source.step(len, body, pos, is_main);
            let whole = source.body_emitted(len, body, pos, is_main);
            let left = source.body_emitted(
                len + first.emitted.code.len(),
                body,
                first.next,
                is_main,
            );
            if first.emitted.result is Ok {
                whole.code == first.emitted.code + left.code && whole.result == left.result
            } else {
                whole == first.emitted
            }
        }),
{
}

/// A body that consists of such instructions alone is its own code.
pub proof fn law_plain_body_is_copied(
    source: Source,
    len: nat,
    body: Seq<Instruction>,
    pos: int,
    is_main: bool,
)
    requires
        0 <= pos <= body.len(),
        forall|i: int| pos <= i < body.len() ==> plain(#[trigger] body[i]),
    ensures
        source.body_emitted(len, body, pos, is_main).result is Ok,
        source.body_emitted(len, body, pos, is_main).code == body.skip(pos),
    decreases body.len() - pos,
{
    if pos < body.len() {
        law_plain_body_is_copied(source, len + 1, body, pos + 1, is_main);
        assert(seq![body[pos]] + body.skip(pos + 1) =~= body.skip(pos));
    } else {
        assert(body.skip(pos) =~= Seq::empty());
    }
}

/// A step does not look at what lies before it, so bodies that agree from a place on have the
/// same code from there on.
proof fn lemma_step_looks_ahead(
    source: Source,
    len: nat,
    first: Seq<Instruction>,
    body: Seq<Instruction>,
    pos: int,
    is_main: bool,
)
    requires
        0 <= pos,
        source.step_defined(len, body, pos),
    ensures
        ({
            let moved = source.step(len, first + body, first.len() + pos, is_main);
            let step = source.step(len, body, pos, is_main);
            moved.emitted == step.emitted && moved.next == first.len() + step.next
        }),
{
    assert(forall|i: int| 0 <= i < body.len() ==> (first + body)[first.len() + i] == #[trigger] body[i]);
    assert((first + body)[first.len() + pos] == body[pos]);
    if pos + 1 < body.len() {
        assert((first + body)[first.len() + pos + 1] == body[pos + 1]);
    }
    if pos + 3 < body.len() {
        assert((first + body)[first.len() + pos + 3] == body[pos + 3]);
    }
}

/// A body that can be translated has the same code wherever it stands in a longer body.
pub proof fn law_body_stands_anywhere(
    source: Source,
    len: nat,
    first: Seq<Instruction>,
    body: Seq<Instruction>,
    pos: int,
    is_main: bool,
)
    requires
        0 <= pos,
        source.body_defined(len, body, pos, is_main),
    ensures
        source.body_emitted(len, first + body, first.len() + pos, is_main) == source.body_emitted(
            len,
            body,
            pos,
            is_main,
        ),
    decreases body.len() + 4 - pos,
{
    if pos < body.len() {
        let step = source.step(len, body, pos, is_main);
        source.lemma_step_moves(len, body, pos, is_main);
        lemma_step_looks_ahead(source, len, first, body, pos, is_main);
        if step.emitted.result is Ok {
            law_body_stands_anywhere(
                source,
                len + step.emitted.code.len(),
                first,
                body,
                step.next,
                is_main,
            );
        }
    }
}

} // verus!
