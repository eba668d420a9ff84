//! From translated code to bytes: branches and references to functions are set to places in
//! the binary.

use crate::binary_format::lemma_patch_keeps_size;
use crate::binary_format::BinaryFormat;
use crate::binary_format::BinaryFormatWriter;
use crate::compiler::CompilerError;
use crate::instruction::BranchOffset;
use crate::instruction::Instruction;
use std::collections::BTreeMap;
use vstd::prelude::*;

verus! {

/// The size of the buffer that one instruction is written to.
pub const INSTRUCTION_BUFFER: usize = 100;

/// The code in which each internal call is a branch to the code of the function.
pub open spec fn calls_resolved(
    code: Seq<Instruction>,
    mapping: Map<u32, u32>,
) -> Seq<Instruction> {
    Seq::new(
        code.len(),
        |i: int|
            match code[i] {
                Instruction::CallInternal(func) => Instruction::Br(
                    BranchOffset((mapping[func] - i) as i32),
                ),
                instr => instr,
            },
    )
}

/// The place in the binary of the instruction with an index.
pub open spec fn byte_offset(code: Seq<Instruction>, i: int) -> int
    decreases i,
{
    if i <= 0 {
        0
    } else {
        byte_offset(code, i - 1) + code[i - 1].encoding().len()
    }
}

/// An instruction as it stands in the binary: a reference to a function holds the place of
/// its code, and a branch that of its target.
pub open spec fn linked(
    code: Seq<Instruction>,
    mapping: Map<u32, u32>,
    i: int,
) -> Result<Instruction, CompilerError> {
    match code[i].code_reference() {
        Some(func) => if mapping.contains_key(func) {
            Ok(code[i].with_call_index(byte_offset(code, mapping[func] as int) as u32))
        } else {
            Err(CompilerError::MissingFunction)
        },
        None => match code[i].jump_offset() {
            Some(offset) => if 0 <= offset.0 + i < code.len() {
                Ok(
                    code[i].with_branch_offset(
                        BranchOffset(byte_offset(code, offset.0 + i) as u32 as i32),
                    ),
                )
            } else {
                Err(CompilerError::OutOfBuffer)
            },
            None => Ok(code[i]),
        },
    }
}

/// The bytes of the first `n` instructions, or the first error among them.
pub open spec fn binary(
    code: Seq<Instruction>,
    mapping: Map<u32, u32>,
    n: nat,
) -> Result<Seq<u8>, CompilerError>
    decreases n,
{
    if n == 0 {
        Ok(Seq::empty())
    } else {
        match binary(code, mapping, (n - 1) as nat) {
            Ok(bytes) => match linked(code, mapping, n - 1) {
                Ok(instr) => Ok(bytes + instr.encoding()),
                Err(error) => Err(error),
            },
            Err(error) => Err(error),
        }
    }
}

/// Whether each internal call can be made a branch.
pub open spec fn calls_defined(code: Seq<Instruction>, mapping: Map<u32, u32>) -> bool {
    forall|i: int|
        0 <= i < code.len() ==> match #[trigger] code[i] {
            Instruction::CallInternal(func) => mapping.contains_key(func) && mapping[func]
                <= i32::MAX,
            _ => true,
        }
}

/// Whether the instruction with an index can be linked, be it to an instruction or to an
/// error: the code of a function that it refers to is not empty, and a branch reaches no
/// further than a branch offset does.
pub open spec fn link_defined(code: Seq<Instruction>, mapping: Map<u32, u32>, i: int) -> bool {
    match code[i].code_reference() {
        Some(func) => mapping.contains_key(func) ==> mapping[func] < code.len(),
        None => match code[i].jump_offset() {
            Some(offset) => offset.0 + i <= i32::MAX,
            None => true,
        },
    }
}

/// Whether code can be linked, be it to bytes or to an error: it is no longer than a branch
/// reaches, its bytes can be counted, and each instruction up to one that fails can be
/// linked.
pub open spec fn linkable(code: Seq<Instruction>, mapping: Map<u32, u32>) -> bool {
    let resolved = calls_resolved(code, mapping);
    &&& code.len() <= i32::MAX
    &&& calls_defined(code, mapping)
    &&& byte_offset(resolved, code.len() as int) <= u32::MAX
    &&& forall|i: int|
        0 <= i < code.len() && (#[trigger] binary(resolved, mapping, i as nat)) is Ok
            ==> link_defined(resolved, mapping, i)
}

/// Places in the binary are in the order of the instructions.
pub proof fn lemma_byte_offset_grows(code: Seq<Instruction>, i: int, j: int)
    requires
        0 <= i <= j,
    ensures
        0 <= byte_offset(code, i) <= byte_offset(code, j),
    decreases j,
{
    if i < j {
        lemma_byte_offset_grows(code, i, j - 1);
    } else if i > 0 {
        lemma_byte_offset_grows(code, i - 1, j - 1);
    }
}

/// What has failed among the first instructions has failed among more of them.
pub proof fn lemma_binary_stops(
    code: Seq<Instruction>,
    mapping: Map<u32, u32>,
    few: nat,
    many: nat,
)
    requires
        few <= many,
    ensures
        binary(code, mapping, few) is Err ==> binary(code, mapping, many) == binary(
            code,
            mapping,
            few,
        ),
    decreases many,
{
    if few < many {
        lemma_binary_stops(code, mapping, few, (many - 1) as nat);
    }
}

/// Looks up where the code of a function begins.
pub(crate) fn function_offset(mapping: &BTreeMap<u32, u32>, func: u32) -> (offset: Option<u32>)
    ensures
        offset == if mapping@.contains_key(func) {
            Some(mapping@[func])
        } else {
            None
        },
{
    match mapping.get(&func) {
        Some(offset) => Some(*offset),
        None => None,
    }
}

/// Makes each internal call a branch to the code of the function.
pub(crate) fn resolve_calls(code: &mut Vec<Instruction>, mapping: &BTreeMap<u32, u32>)
    requires
        old(code)@.len() <= i32::MAX,
        calls_defined(old(code)@, mapping@),
    ensures
        final(code)@ == calls_resolved(old(code)@, mapping@),
{
    let len: usize = code.len();
    let mut i: usize = 0;
    while i < len
        invariant
            i <= len == code@.len() == old(code)@.len(),
            len <= i32::MAX,
            calls_defined(old(code)@, mapping@),
            forall|k: int|
                0 <= k < len ==> #[trigger] code@[k] == if k < i {
                    calls_resolved(old(code)@, mapping@)[k]
                } else {
                    old(code)@[k]
                },
        decreases len - i,
    {
        let instr: Instruction = code[i];
        assert(instr == old(code)@[i as int]);
        if let Instruction::CallInternal(func) = instr {
            if let Some(target) = function_offset(mapping, func) {
                let branch: Instruction = Instruction::Br(
                    BranchOffset::from_i32(target as i32 - i as i32),
                );
                code.set(i, branch);
            }
        }
        i += 1;
    }
    assert(code@ =~= calls_resolved(old(code)@, mapping@));
}

/// The binary form of each instruction, with its place and its size.
pub(crate) fn layout(code: &Vec<Instruction>) -> (r: Result<Vec<(u32, u32, Vec<u8>)>, CompilerError>)
    requires
        byte_offset(code@, code@.len() as int) <= u32::MAX,
    ensures
        r is Ok,
        r->Ok_0@.len() == code@.len(),
        forall|i: int| 0 <= i < code@.len() ==> #[trigger] entry_laid_out(code@, r->Ok_0@, i),
{
    let len: usize = code.len();
    let mut states: Vec<(u32, u32, Vec<u8>)> = Vec::new();
    let mut buffer_offset: u32 = 0;
    let mut i: usize = 0;
    while i < len
        invariant
            i <= len == code@.len(),
            states@.len() == i,
            byte_offset(code@, len as int) <= u32::MAX,
            buffer_offset == byte_offset(code@, i as int),
            forall|k: int| 0 <= k < i ==> #[trigger] entry_laid_out(code@, states@, k),
        decreases len - i,
    {
        proof {
            lemma_byte_offset_grows(code@, i + 1, len as int);
            lemma_patch_keeps_size(code@[i as int], BranchOffset(0), 0);
        }
        let mut binary_writer: BinaryFormatWriter = BinaryFormatWriter::new(INSTRUCTION_BUFFER);
        match code[i].write_binary(&mut binary_writer) {
            Ok(_) => {},
            Err(error) => {
                return Err(CompilerError::BinaryFormat(error));
            },
        }
        let buffer: Vec<u8> = binary_writer.to_vec();
        assert(buffer@ =~= code@[i as int].encoding());
        let buffer_size: u32 = buffer.len() as u32;
        let ghost before = states@;
        states.push((buffer_offset, buffer_size, buffer));
        proof {
            assert(entry_laid_out(code@, states@, i as int));
            assert forall|k: int| 0 <= k < i implies #[trigger] entry_laid_out(
                code@,
                states@,
                k,
            ) by {
                assert(entry_laid_out(code@, before, k));
                assert(states@[k] == before[k]);
            }
        }
        buffer_offset += buffer_size;
        i += 1;
    }
    Ok(states)
}

/// Whether an entry holds the binary form of a linked instruction.
pub open spec fn entry_linked(
    code: Seq<Instruction>,
    mapping: Map<u32, u32>,
    states: Seq<(u32, u32, Vec<u8>)>,
    i: int,
) -> bool {
    linked(code, mapping, i) is Ok && states[i].2@ == linked(code, mapping, i)->Ok_0.encoding()
}

/// Whether an entry holds the place and the binary form of an instruction.
pub open spec fn entry_laid_out(
    code: Seq<Instruction>,
    states: Seq<(u32, u32, Vec<u8>)>,
    i: int,
) -> bool {
    &&& states[i].0 == byte_offset(code, i)
    &&& states[i].1 == code[i].encoding().len()
    &&& states[i].2@ == code[i].encoding()
}

/// Links the instruction with an index. The flag tells whether it has changed.
fn link_instruction(
    code: &Vec<Instruction>,
    mapping: &BTreeMap<u32, u32>,
    states: &Vec<(u32, u32, Vec<u8>)>,
    i: usize,
) -> (r: Result<(Instruction, bool), CompilerError>)
    requires
        i < code@.len() == states@.len(),
        code@.len() <= i32::MAX,
        byte_offset(code@, code@.len() as int) <= u32::MAX,
        link_defined(code@, mapping@, i as int),
        forall|k: int| 0 <= k < code@.len() ==> (#[trigger] states@[k]).0 == byte_offset(code@, k),
    ensures
        match linked(code@, mapping@, i as int) {
            Ok(instr) => r is Ok && r->Ok_0.0 == instr && (r->Ok_0.1 || instr == code@[i as int]),
            Err(error) => r == Err::<(Instruction, bool), _>(error),
        },
{
    let mut instr: Instruction = code[i];
    let mut affected: bool = false;
    match instr {
        Instruction::CallInternal(func)
        | Instruction::ReturnCallInternal(func)
        | Instruction::RefFunc(func) => {
            let func_offset: u32 = match function_offset(mapping, func) {
                Some(offset) => offset,
                None => {
                    return Err(CompilerError::MissingFunction);
                },
            };
            instr.update_call_index(states[func_offset as usize].0);
            affected = true;
        },
        _ => {},
    }
    if let Some(jump_offset) = instr.get_jump_offset() {
        let label: i32 = jump_offset.to_i32() + i as i32;
        let jump_label: usize = label as usize;
        proof {
            lemma_negative_label(label);
        }
        if jump_label >= states.len() {
            return Err(CompilerError::OutOfBuffer);
        }
        instr.update_branch_offset(BranchOffset::from_i32(states[jump_label].0 as i32));
        affected = true;
    }
    Ok((instr, affected))
}

/// Writes anew each instruction that refers to a place in the binary.
pub(crate) fn patch(
    code: &Vec<Instruction>,
    mapping: &BTreeMap<u32, u32>,
    states: &mut Vec<(u32, u32, Vec<u8>)>,
) -> (r: Result<(), CompilerError>)
    requires
        code@.len() <= i32::MAX,
        byte_offset(code@, code@.len() as int) <= u32::MAX,
        forall|i: int|
            0 <= i < code@.len() && (#[trigger] binary(code@, mapping@, i as nat)) is Ok
                ==> link_defined(code@, mapping@, i),
        old(states)@.len() == code@.len(),
        forall|i: int|
            0 <= i < code@.len() ==> #[trigger] entry_laid_out(code@, old(states)@, i),
    ensures
        match binary(code@, mapping@, code@.len()) {
            Ok(_) => r is Ok,
            Err(error) => r == Err::<(), _>(error),
        },
        final(states)@.len() == code@.len(),
        r is Ok ==> forall|i: int|
            0 <= i < code@.len() ==> #[trigger] entry_linked(
                code@,
                mapping@,
                final(states)@,
                i,
            ),
{
    let len: usize = code.len();
    let mut i: usize = 0;
    proof {
        assert forall|k: int| 0 <= k < len implies (#[trigger] states@[k]).0 == byte_offset(
            code@,
            k,
        ) by {
            assert(entry_laid_out(code@, states@, k));
        }
    }
    while i < len
        invariant
            i <= len == code@.len() == states@.len(),
            len <= i32::MAX,
            byte_offset(code@, len as int) <= u32::MAX,
            forall|k: int|
                0 <= k < len && (#[trigger] binary(code@, mapping@, k as nat)) is Ok
                    ==> link_defined(code@, mapping@, k),
            forall|k: int| 0 <= k < len ==> (#[trigger] states@[k]).0 == byte_offset(code@, k),
            forall|k: int| i <= k < len ==> #[trigger] entry_laid_out(code@, states@, k),
            binary(code@, mapping@, i as nat) is Ok,
            forall|k: int| 0 <= k < i ==> #[trigger] entry_linked(code@, mapping@, states@, k),
        decreases len - i,
    {
        proof {
            lemma_binary_stops(code@, mapping@, (i + 1) as nat, len as nat);
        }
        assert(link_defined(code@, mapping@, i as int));
        assert(entry_laid_out(code@, states@, i as int));
        let ghost before = states@;
        let (instr, affected): (Instruction, bool) = match link_instruction(
            code,
            mapping,
            states,
            i,
        ) {
            Ok(linked) => linked,
            Err(error) => {
                return Err(error);
            },
        };
        if affected {
            let mut buffer: Vec<u8> = Vec::new();
            match instr.write_binary_to_vec(&mut buffer) {
                Ok(_) => {},
                Err(error) => {
                    return Err(CompilerError::BinaryFormat(error));
                },
            }
            assert(buffer@ =~= instr.encoding());
            let place: u32 = states[i].0;
            let size: u32 = states[i].1;
            states.set(i, (place, size, buffer));
        }
        proof {
            assert(entry_linked(code@, mapping@, states@, i as int));
            assert forall|k: int| 0 <= k < i implies #[trigger] entry_linked(
                code@,
                mapping@,
                states@,
                k,
            ) by {
                assert(entry_linked(code@, mapping@, before, k));
                assert(states@[k] == before[k]);
            }
            assert forall|k: int| i < k < len implies #[trigger] entry_laid_out(
                code@,
                states@,
                k,
            ) by {
                assert(entry_laid_out(code@, before, k));
                assert(states@[k] == before[k]);
            }
        }
        i += 1;
    }
    Ok(())
}

/// A label in front of the code is behind its end when it is read as a place.
proof fn lemma_negative_label(label: i32)
    ensures
        label < 0 ==> label as usize > i32::MAX,
        label >= 0 ==> label as usize == label,
{
    assert(label < 0 ==> label as usize > 0x7fff_ffff) by (bit_vector);
}

/// The bytes of all instructions, one after the other.
pub(crate) fn join(states: &Vec<(u32, u32, Vec<u8>)>) -> (res: Vec<u8>)
    ensures
        res@ == joined(states@, states@.len()),
{
    let len: usize = states.len();
    let mut res: Vec<u8> = Vec::new();
    let mut i: usize = 0;
    while i < len
        invariant
            i <= len == states@.len(),
            res@ =~= joined(states@, i as nat),
        decreases len - i,
    {
        res.extend_from_slice(states[i].2.as_slice());
        i += 1;
    }
    res
}

/// The bytes of the first `n` entries, one after the other.
pub open spec fn joined(states: Seq<(u32, u32, Vec<u8>)>, n: nat) -> Seq<u8>
    decreases n,
{
    if n == 0 {
        Seq::empty()
    } else {
        joined(states, (n - 1) as nat) + states[n - 1].2@
    }
}

/// Where each entry holds a linked instruction, the entries joined are the binary.
pub proof fn lemma_joined_is_binary(
    code: Seq<Instruction>,
    mapping: Map<u32, u32>,
    states: Seq<(u32, u32, Vec<u8>)>,
    n: nat,
)
    requires
        n <= code.len() == states.len(),
        forall|i: int| 0 <= i < code.len() ==> #[trigger] entry_linked(code, mapping, states, i),
    ensures
        binary(code, mapping, n) == Ok::<_, CompilerError>(joined(states, n)),
    decreases n,
{
    if n > 0 {
        lemma_joined_is_binary(code, mapping, states, (n - 1) as nat);
        assert(entry_linked(code, mapping, states, n - 1));
    }
}

} // verus!
