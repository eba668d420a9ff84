//! What holds of linked code and of the binary of a module.

use crate::binary_format::be4;
use crate::binary_format::lemma_patch_keeps_size;
use crate::binary_format::BinaryFormat;
use crate::compiler::laws::law_binary_layout;
use crate::compiler::laws::law_calls_become_branches;
use crate::compiler::link::binary;
use crate::compiler::link::byte_offset;
use crate::compiler::link::calls_resolved;
use crate::compiler::link::lemma_binary_stops;
use crate::compiler::link::linked;
use crate::compiler::Compiler;
use crate::compiler::CompilerError;
use crate::instruction::BranchOffset;
use crate::instruction::Instruction;
use vstd::prelude::*;

verus! {

/// How far a jump goes. Only branches jump.
pub open spec fn jump_of(instr: Instruction) -> Option<int> {
    if instr is Br {
        Some(instr->Br_0.0 as int)
    } else if instr is BrIfEqz {
        Some(instr->BrIfEqz_0.0 as int)
    } else if instr is BrIfNez {
        Some(instr->BrIfNez_0.0 as int)
    } else if instr is BrAdjust {
        Some(instr->BrAdjust_0.0 as int)
    } else if instr is BrAdjustIfNez {
        Some(instr->BrAdjustIfNez_0.0 as int)
    } else {
        None
    }
}

/// The function whose code is meant by a call within the module or by a reference.
pub open spec fn function_of(instr: Instruction) -> Option<u32> {
    if instr is CallInternal {
        Some(instr->CallInternal_0)
    } else if instr is ReturnCallInternal {
        Some(instr->ReturnCallInternal_0)
    } else if instr is RefFunc {
        Some(instr->RefFunc_0)
    } else {
        None
    }
}

/// Branches are the jumps, and calls within the module and references are what refers to the
/// code of functions.
pub proof fn law_jumps_and_references(instr: Instruction)
    ensures
        instr.jump_offset() is Some <==> jump_of(instr) is Some,
        instr.jump_offset() is Some ==> instr.jump_offset()->Some_0.0 == jump_of(instr)->Some_0,
        instr.code_reference() == function_of(instr),
        instr.jump_offset() is None || instr.code_reference() is None,
{
}

/// To give a jump another offset changes nothing else of it, and nothing of what is no jump.
pub proof fn law_only_the_offset_changes(instr: Instruction, offset: BranchOffset)
    ensures
        instr.with_branch_offset(offset).opcode() == instr.opcode(),
        jump_of(instr) is Some ==> instr.with_branch_offset(offset).jump_offset() == Some(offset),
        jump_of(instr) is None ==> instr.with_branch_offset(offset) == instr,
        instr is Br ==> instr.with_branch_offset(offset) is Br,
        instr is BrIfEqz ==> instr.with_branch_offset(offset) is BrIfEqz,
        instr is BrIfNez ==> instr.with_branch_offset(offset) is BrIfNez,
        instr is BrAdjust ==> instr.with_branch_offset(offset) is BrAdjust,
        instr is BrAdjustIfNez ==> instr.with_branch_offset(offset) is BrAdjustIfNez,
{
}

/// To let a reference mean another function changes nothing else of it, and nothing of what
/// is no reference.
pub proof fn law_only_the_function_changes(instr: Instruction, func: u32)
    ensures
        instr.with_call_index(func).opcode() == instr.opcode(),
        function_of(instr) is Some ==> function_of(instr.with_call_index(func)) == Some(func),
        function_of(instr) is None ==> instr.with_call_index(func) == instr,
        instr is CallInternal ==> instr.with_call_index(func) is CallInternal,
        instr is ReturnCallInternal ==> instr.with_call_index(func) is ReturnCallInternal,
        instr is RefFunc ==> instr.with_call_index(func) is RefFunc,
{
}

/// Linking keeps what an instruction is. A jump gets the place of its target and a reference
/// that of its function; any other instruction stays as it is.
pub proof fn law_linking_keeps_instructions(
    code: Seq<Instruction>,
    mapping: Map<u32, u32>,
    i: int,
)
    requires
        0 <= i < code.len(),
        linked(code, mapping, i) is Ok,
    ensures
        ({
            let instr = code[i];
            let after = linked(code, mapping, i)->Ok_0;
            let target = byte_offset(code, i + jump_of(instr)->Some_0) as u32;
            let begin = byte_offset(code, mapping[function_of(instr)->Some_0] as int) as u32;
            &&& after.opcode() == instr.opcode()
            &&& after.encoding()[0] == instr.encoding()[0]
            &&& after.encoding().len() == instr.encoding().len()
            &&& instr is Br ==> after == Instruction::Br(BranchOffset(target as i32))
            &&& instr is BrIfEqz ==> after == Instruction::BrIfEqz(BranchOffset(target as i32))
            &&& instr is BrIfNez ==> after == Instruction::BrIfNez(BranchOffset(target as i32))
            &&& instr is BrAdjust ==> after == Instruction::BrAdjust(BranchOffset(target as i32))
            &&& instr is BrAdjustIfNez ==> after == Instruction::BrAdjustIfNez(
                BranchOffset(target as i32),
            )
            &&& instr is CallInternal ==> after == Instruction::CallInternal(begin)
            &&& instr is ReturnCallInternal ==> after == Instruction::ReturnCallInternal(begin)
            &&& instr is RefFunc ==> after == Instruction::RefFunc(begin)
            &&& jump_of(instr) is None && function_of(instr) is None ==> after == instr
        }),
{
    let instr = code[i];
    let target = byte_offset(code, i + jump_of(instr)->Some_0) as u32;
    let begin = byte_offset(code, mapping[function_of(instr)->Some_0] as int) as u32;
    lemma_patch_keeps_size(instr, BranchOffset(target as i32), begin);
}

/// Linking fails for a reference to a function whose place is not known, and for a jump that
/// leaves the code, and for nothing else.
pub proof fn law_linking_fails_exactly(code: Seq<Instruction>, mapping: Map<u32, u32>, i: int)
    requires
        0 <= i < code.len(),
    ensures
        ({
            let r = linked(code, mapping, i);
            if function_of(code[i]) is Some && !mapping.contains_key(function_of(code[i])->Some_0) {
                r == Err::<Instruction, _>(CompilerError::MissingFunction)
            } else if jump_of(code[i]) is Some && !(0 <= i + jump_of(code[i])->Some_0
                < code.len()) {
                r == Err::<Instruction, _>(CompilerError::OutOfBuffer)
            } else {
                r is Ok
            }
        }),
{
}

/// The binary is the linked instructions one after the other, where all of them can be linked.
pub proof fn law_binary_is_all_instructions(
    code: Seq<Instruction>,
    mapping: Map<u32, u32>,
    n: nat,
)
    requires
        n <= code.len(),
        forall|i: int| 0 <= i < n ==> (#[trigger] linked(code, mapping, i)) is Ok,
    ensures
        binary(code, mapping, n) is Ok,
        binary(code, mapping, n)->Ok_0 == Seq::new(
            n,
            |i: int| linked(code, mapping, i)->Ok_0.encoding(),
        ).flatten(),
    decreases n,
{
    broadcast use Seq::lemma_flatten_push;

    let part = |i: int| linked(code, mapping, i)->Ok_0.encoding();
    if n > 0 {
        law_binary_is_all_instructions(code, mapping, (n - 1) as nat);
        assert(linked(code, mapping, n - 1) is Ok);
        assert(Seq::new(n, part) =~= Seq::new((n - 1) as nat, part).push(part(n - 1)));
    }
}

/// There is no binary where an instruction cannot be linked, for the reason that the first
/// such cannot.
pub proof fn law_binary_fails_with_first_instruction(
    code: Seq<Instruction>,
    mapping: Map<u32, u32>,
    i: nat,
    n: nat,
)
    requires
        i < n <= code.len(),
        forall|k: int| 0 <= k < i ==> (#[trigger] linked(code, mapping, k)) is Ok,
        linked(code, mapping, i as int) is Err,
    ensures
        binary(code, mapping, n) is Err,
        binary(code, mapping, n)->Err_0 == linked(code, mapping, i as int)->Err_0,
{
    law_binary_is_all_instructions(code, mapping, i);
    lemma_binary_stops(code, mapping, i + 1, n);
}

/// What is turned into bytes is the whole module, unless it, or a part of it, has been
/// translated before. Where the translation fails, so does the rest.
pub proof fn law_output_is_of_the_translation(compiler: Compiler)
    ensures
        ({
            let ready = if compiler.translated() {
                compiler.progress()
            } else {
                compiler.source().translated(compiler.progress(), None)
            };
            let code = calls_resolved(ready.code, ready.mapping);
            &&& compiler.ready() == ready
            &&& ready.result is Err ==> compiler.output() is Err && compiler.output()->Err_0
                == ready.result->Err_0
            &&& ready.result is Ok ==> compiler.output() == binary(
                code,
                ready.mapping,
                code.len(),
            )
        }),
{
}

/// The place in the binary of the instruction with an index.
pub open spec fn place(compiler: Compiler, i: int) -> int {
    byte_offset(calls_resolved(compiler.ready().code, compiler.ready().mapping), i)
}

/// The bytes of an instruction stand between its place and the next. Those of a branch are
/// the byte of its operation and the place of its target, those of an internal call a branch
/// to the code of the function, and those of a reference hold the place of that code. Any
/// other instruction stands there in its own binary form.
pub proof fn law_bytes_of_instruction(compiler: Compiler, i: int)
    requires
        compiler.finalizable(),
        compiler.output() is Ok,
        0 <= i < compiler.ready().code.len(),
    ensures
        ({
            let code = compiler.ready().code;
            let mapping = compiler.ready().mapping;
            let bytes = compiler.output()->Ok_0;
            let own = bytes.subrange(place(compiler, i), place(compiler, i + 1));
            &&& place(compiler, 0) == 0
            &&& place(compiler, code.len() as int) == bytes.len()
            &&& 0 <= place(compiler, i) < place(compiler, i + 1) <= bytes.len() <= u32::MAX
            &&& match code[i] {
                Instruction::CallInternal(func) => {
                    &&& mapping.contains_key(func)
                    &&& mapping[func] < code.len()
                    &&& own == seq![0x02u8] + be4(place(compiler, mapping[func] as int) as u32)
                },
                Instruction::Br(offset) => {
                    &&& 0 <= i + offset.0 < code.len()
                    &&& own == seq![0x02u8] + be4(place(compiler, i + offset.0) as u32)
                },
                Instruction::BrIfEqz(offset) => {
                    &&& 0 <= i + offset.0 < code.len()
                    &&& own == seq![0x03u8] + be4(place(compiler, i + offset.0) as u32)
                },
                Instruction::BrIfNez(offset) => {
                    &&& 0 <= i + offset.0 < code.len()
                    &&& own == seq![0x04u8] + be4(place(compiler, i + offset.0) as u32)
                },
                Instruction::BrAdjust(offset) => {
                    &&& 0 <= i + offset.0 < code.len()
                    &&& own == seq![0x05u8] + be4(place(compiler, i + offset.0) as u32)
                },
                Instruction::BrAdjustIfNez(offset) => {
                    &&& 0 <= i + offset.0 < code.len()
                    &&& own == seq![0x06u8] + be4(place(compiler, i + offset.0) as u32)
                },
                Instruction::ReturnCallInternal(func) => {
                    &&& mapping.contains_key(func)
                    &&& own == seq![0x0au8] + be4(place(compiler, mapping[func] as int) as u32)
                },
                Instruction::RefFunc(func) => {
                    &&& mapping.contains_key(func)
                    &&& own == seq![0x15u8] + be4(place(compiler, mapping[func] as int) as u32)
                },
                instr => own == instr.encoding(),
            }
        }),
{
    let mapping = compiler.ready().mapping;
    let code = calls_resolved(compiler.ready().code, mapping);
    law_binary_layout(code, mapping, code.len(), i);
    law_calls_become_branches(compiler.ready().code, mapping, i);
    law_linking_keeps_instructions(code, mapping, i);
    law_linking_fails_exactly(code, mapping, i);
    let target = byte_offset(code, i + jump_of(code[i])->Some_0) as u32;
    assert((target as i32) as u32 == target) by (bit_vector);
}

/// Once a module has been turned into bytes, its code has a branch to the code of the
/// function in place of each internal call, and is the same else.
pub proof fn law_finalizing_resolves_calls(before: Compiler, after: Compiler, i: int)
    requires
        before.finalizable(),
        before.ready().result is Ok,
        after.finalized(&before),
        0 <= i < before.ready().code.len(),
    ensures
        after.source() == before.source(),
        after.translated(),
        after.progress().mapping == before.ready().mapping,
        after.progress().code.len() == before.ready().code.len(),
        match before.ready().code[i] {
            Instruction::CallInternal(func) => {
                let branch = after.progress().code[i];
                branch is Br && i + branch->Br_0.0 == before.ready().mapping[func]
            },
            instr => after.progress().code[i] == instr,
        },
{
    law_calls_become_branches(before.ready().code, before.ready().mapping, i);
}

/// A module that could not be translated is not, and keeps the code up to the failure.
pub proof fn law_failed_finalizing(before: Compiler, after: Compiler)
    requires
        before.ready().result is Err,
        after.finalized(&before),
    ensures
        after.source() == before.source(),
        !after.translated(),
        after.progress().code == before.ready().code,
        after.progress().mapping == before.ready().mapping,
{
}

} // verus!
