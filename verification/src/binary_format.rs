//! The binary form of instructions: an operation code byte, then the immediates, each with
//! its most significant byte first.

use crate::common::UntypedValue;
use crate::instruction::BranchOffset;
use crate::instruction::DropKeep;
use crate::instruction::Instruction;
use vstd::prelude::*;

verus! {

/// Why a value could not be written.
#[derive(Clone, Copy, Debug, PartialEq, Eq, Structural)]
pub enum BinaryFormatError {
    /// The sink lacks this many bytes.
    NeedMore(usize),
}

/// A sink of limited size.
pub struct BinaryFormatWriter {
    pub capacity: usize,
    pub sink: Vec<u8>,
}

impl BinaryFormatWriter {
    pub open spec fn wf(self) -> bool {
        self.sink@.len() <= self.capacity
    }

    pub fn new(capacity: usize) -> (writer: BinaryFormatWriter)
        ensures
            writer.wf(),
            writer.capacity == capacity,
            writer.sink@ == Seq::<u8>::empty(),
    {
        BinaryFormatWriter { capacity, sink: Vec::new() }
    }

    /// Writes all of `bytes`, or none where they do not fit.
    pub fn write_bytes(&mut self, bytes: &Vec<u8>) -> (r: Result<usize, BinaryFormatError>)
        requires
            old(self).wf(),
        ensures
            final(self).wf(),
            final(self).capacity == old(self).capacity,
            ({
                let room = old(self).capacity - old(self).sink@.len();
                if bytes@.len() <= room {
                    r == Ok::<_, BinaryFormatError>(bytes@.len() as usize) && final(self).sink@
                        == old(self).sink@ + bytes@
                } else {
                    r == Err::<usize, _>(
                        BinaryFormatError::NeedMore((bytes@.len() - room) as usize),
                    ) && final(self).sink@ == old(self).sink@
                }
            }),
    {
        let room: usize = self.capacity - self.sink.len();
        let len: usize = bytes.len();
        if len > room {
            return Err(BinaryFormatError::NeedMore(len - room));
        }
        let mut i: usize = 0;
        while i < len
            invariant
                i <= len == bytes@.len(),
                self.capacity == old(self).capacity,
                self.sink@ =~= old(self).sink@ + bytes@.take(i as int),
                old(self).sink@.len() + len <= self.capacity,
            decreases len - i,
        {
            self.sink.push(bytes[i]);
            i += 1;
        }
        assert(bytes@.take(len as int) =~= bytes@);
        Ok(len)
    }

    /// What has been written.
    pub fn to_vec(self) -> (bytes: Vec<u8>)
        ensures
            bytes@ == self.sink@,
    {
        self.sink
    }
}

/// The four bytes of a number, the most significant first.
pub open spec fn be4(value: u32) -> Seq<u8> {
    seq![
        (value / 0x100_0000) as u8,
        (value / 0x1_0000 % 0x100) as u8,
        (value / 0x100 % 0x100) as u8,
        (value % 0x100) as u8,
    ]
}

/// The eight bytes of a number, the most significant first.
pub open spec fn be8(value: u64) -> Seq<u8> {
    be4((value / 0x1_0000_0000) as u32) + be4((value % 0x1_0000_0000) as u32)
}

/// The four bytes of a pair, first what is dropped.
pub open spec fn be_drop_keep(dk: DropKeep) -> Seq<u8> {
    seq![
        (dk.drop / 0x100) as u8,
        (dk.drop % 0x100) as u8,
        (dk.keep / 0x100) as u8,
        (dk.keep % 0x100) as u8,
    ]
}

/// What has a binary form.
pub trait BinaryFormat {
    /// The binary form.
    spec fn encoding(&self) -> Seq<u8>;

    /// Appends the binary form to `buffer`.
    fn write_binary_to_vec(&self, buffer: &mut Vec<u8>) -> (r: Result<usize, BinaryFormatError>)
        ensures
            final(buffer)@ == old(buffer)@ + self.encoding(),
            r == Ok::<_, BinaryFormatError>(self.encoding().len() as usize),
    ;

    /// Writes the binary form, or nothing where it does not fit.
    fn write_binary(&self, sink: &mut BinaryFormatWriter) -> (r: Result<usize, BinaryFormatError>)
        requires
            old(sink).wf(),
        ensures
            final(sink).wf(),
            final(sink).capacity == old(sink).capacity,
            ({
                let room = old(sink).capacity - old(sink).sink@.len();
                if self.encoding().len() <= room {
                    r == Ok::<_, BinaryFormatError>(self.encoding().len() as usize) && final(
                        sink).sink@ == old(sink).sink@ + self.encoding()
                } else {
                    r == Err::<usize, _>(
                        BinaryFormatError::NeedMore((self.encoding().len() - room) as usize),
                    ) && final(sink).sink@ == old(sink).sink@
                }
            }),
    ;
}

fn write_u32(buffer: &mut Vec<u8>, value: u32)
    ensures
        final(buffer)@ == old(buffer)@ + be4(value),
{
    buffer.push((value / 0x100_0000) as u8);
    buffer.push((value / 0x1_0000 % 0x100) as u8);
    buffer.push((value / 0x100 % 0x100) as u8);
    buffer.push((value % 0x100) as u8);
    assert(buffer@ =~= old(buffer)@ + be4(value));
}

fn write_u64(buffer: &mut Vec<u8>, value: u64)
    ensures
        final(buffer)@ == old(buffer)@ + be8(value),
{
    write_u32(buffer, (value / 0x1_0000_0000) as u32);
    write_u32(buffer, (value % 0x1_0000_0000) as u32);
    assert(buffer@ =~= old(buffer)@ + be8(value));
}

fn write_drop_keep(buffer: &mut Vec<u8>, dk: DropKeep)
    ensures
        final(buffer)@ == old(buffer)@ + be_drop_keep(dk),
{
    buffer.push((dk.drop / 0x100) as u8);
    buffer.push((dk.drop % 0x100) as u8);
    buffer.push((dk.keep / 0x100) as u8);
    buffer.push((dk.keep % 0x100) as u8);
    assert(buffer@ =~= old(buffer)@ + be_drop_keep(dk));
}

impl Instruction {
    /// The operation code byte.
    pub open spec fn opcode(self) -> u8 {
        match self {
            Instruction::LocalGet(_) => 0x00,
            Instruction::LocalSet(_) => 0x01,
            Instruction::Br(_) => 0x02,
            Instruction::BrIfEqz(_) => 0x03,
            Instruction::BrIfNez(_) => 0x04,
            Instruction::BrAdjust(_) => 0x05,
            Instruction::BrAdjustIfNez(_) => 0x06,
            Instruction::BrIndirect => 0x07,
            Instruction::Return(_) => 0x08,
            Instruction::ReturnIfNez(_) => 0x09,
            Instruction::ReturnCallInternal(_) => 0x0a,
            Instruction::ReturnCall(_) => 0x0b,
            Instruction::ReturnCallIndirect(_) => 0x0c,
            Instruction::CallInternal(_) => 0x0d,
            Instruction::Call(_) => 0x0e,
            Instruction::CallIndirect(_) => 0x0f,
            Instruction::Drop => 0x10,
            Instruction::GlobalSet(_) => 0x11,
            Instruction::TableGrow(_) => 0x12,
            Instruction::TableGet(_) => 0x13,
            Instruction::TableSet(_) => 0x14,
            Instruction::RefFunc(_) => 0x15,
            Instruction::I32Const(_) => 0x16,
            Instruction::I64Const(_) => 0x17,
            Instruction::ConstRef(_) => 0x18,
            Instruction::I32Store8(_) => 0x19,
            Instruction::I32Store16(_) => 0x1a,
            Instruction::I32Store(_) => 0x1b,
            Instruction::I64Store(_) => 0x1c,
            Instruction::Operator { .. } => 0x1d,
        }
    }

    /// The bytes behind the operation code.
    pub open spec fn immediates(self) -> Seq<u8> {
        match self {
            Instruction::LocalGet(depth) => be4(depth),
            Instruction::LocalSet(depth) => be4(depth),
            Instruction::Br(offset) => be4(offset.0 as u32),
            Instruction::BrIfEqz(offset) => be4(offset.0 as u32),
            Instruction::BrIfNez(offset) => be4(offset.0 as u32),
            Instruction::BrAdjust(offset) => be4(offset.0 as u32),
            Instruction::BrAdjustIfNez(offset) => be4(offset.0 as u32),
            Instruction::BrIndirect => Seq::empty(),
            Instruction::Return(dk) => be_drop_keep(dk),
            Instruction::ReturnIfNez(dk) => be_drop_keep(dk),
            Instruction::ReturnCallInternal(func) => be4(func),
            Instruction::ReturnCall(func) => be4(func),
            Instruction::ReturnCallIndirect(signature) => be4(signature),
            Instruction::CallInternal(func) => be4(func),
            Instruction::Call(func) => be4(func),
            Instruction::CallIndirect(signature) => be4(signature),
            Instruction::Drop => Seq::empty(),
            Instruction::GlobalSet(global) => be4(global),
            Instruction::TableGrow(table) => be4(table),
            Instruction::TableGet(table) => be4(table),
            Instruction::TableSet(table) => be4(table),
            Instruction::RefFunc(func) => be4(func),
            Instruction::I32Const(value) => be8(value.bits),
            Instruction::I64Const(value) => be8(value.bits),
            Instruction::ConstRef(index) => be4(index),
            Instruction::I32Store8(offset) => be4(offset),
            Instruction::I32Store16(offset) => be4(offset),
            Instruction::I32Store(offset) => be4(offset),
            Instruction::I64Store(offset) => be4(offset),
            Instruction::Operator { code, immediate } => seq![code] + be8(immediate),
        }
    }

    fn write_opcode(&self, buffer: &mut Vec<u8>)
        ensures
            final(buffer)@ == old(buffer)@.push(self.opcode()),
    {
        let opcode: u8 = match *self {
            Instruction::LocalGet(_) => 0x00,
            Instruction::LocalSet(_) => 0x01,
            Instruction::Br(_) => 0x02,
            Instruction::BrIfEqz(_) => 0x03,
            Instruction::BrIfNez(_) => 0x04,
            Instruction::BrAdjust(_) => 0x05,
            Instruction::BrAdjustIfNez(_) => 0x06,
            Instruction::BrIndirect => 0x07,
            Instruction::Return(_) => 0x08,
            Instruction::ReturnIfNez(_) => 0x09,
            Instruction::ReturnCallInternal(_) => 0x0a,
            Instruction::ReturnCall(_) => 0x0b,
            Instruction::ReturnCallIndirect(_) => 0x0c,
            Instruction::CallInternal(_) => 0x0d,
            Instruction::Call(_) => 0x0e,
            Instruction::CallIndirect(_) => 0x0f,
            Instruction::Drop => 0x10,
            Instruction::GlobalSet(_) => 0x11,
            Instruction::TableGrow(_) => 0x12,
            Instruction::TableGet(_) => 0x13,
            Instruction::TableSet(_) => 0x14,
            Instruction::RefFunc(_) => 0x15,
            Instruction::I32Const(_) => 0x16,
            Instruction::I64Const(_) => 0x17,
            Instruction::ConstRef(_) => 0x18,
            Instruction::I32Store8(_) => 0x19,
            Instruction::I32Store16(_) => 0x1a,
            Instruction::I32Store(_) => 0x1b,
            Instruction::I64Store(_) => 0x1c,
            Instruction::Operator { .. } => 0x1d,
        };
        buffer.push(opcode);
    }

    fn write_immediates(&self, buffer: &mut Vec<u8>)
        ensures
            final(buffer)@ == old(buffer)@ + self.immediates(),
    {
        match *self {
            Instruction::LocalGet(index)
            | Instruction::LocalSet(index)
            | Instruction::ReturnCallInternal(index)
            | Instruction::ReturnCall(index)
            | Instruction::ReturnCallIndirect(index)
            | Instruction::CallInternal(index)
            | Instruction::Call(index)
            | Instruction::CallIndirect(index)
            | Instruction::GlobalSet(index)
            | Instruction::TableGrow(index)
            | Instruction::TableGet(index)
            | Instruction::TableSet(index)
            | Instruction::RefFunc(index)
            | Instruction::ConstRef(index)
            | Instruction::I32Store8(index)
            | Instruction::I32Store16(index)
            | Instruction::I32Store(index)
            | Instruction::I64Store(index) => write_u32(buffer, index),
            Instruction::Br(offset)
            | Instruction::BrIfEqz(offset)
            | Instruction::BrIfNez(offset)
            | Instruction::BrAdjust(offset)
            | Instruction::BrAdjustIfNez(offset) => write_u32(buffer, offset.to_i32() as u32),
            Instruction::Return(dk) | Instruction::ReturnIfNez(dk) => write_drop_keep(buffer, dk),
            Instruction::I32Const(value) | Instruction::I64Const(value) => write_u64(
                buffer,
                value.to_bits(),
            ),
            Instruction::Operator { code, immediate } => {
                buffer.push(code);
                write_u64(buffer, immediate);
            },
            Instruction::BrIndirect | Instruction::Drop => {},
        }
        assert(buffer@ =~= old(buffer)@ + self.immediates());
    }
}

impl BinaryFormat for Instruction {
    open spec fn encoding(&self) -> Seq<u8> {
        seq![self.opcode()] + self.immediates()
    }

    fn write_binary_to_vec(&self, buffer: &mut Vec<u8>) -> (r: Result<usize, BinaryFormatError>) {
        self.write_opcode(buffer);
        self.write_immediates(buffer);
        assert(buffer@ =~= old(buffer)@ + self.encoding());
        let len: usize = match *self {
            Instruction::BrIndirect | Instruction::Drop => 1,
            Instruction::I32Const(_) | Instruction::I64Const(_) => 9,
            Instruction::Operator { .. } => 10,
            _ => 5,
        };
        Ok(len)
    }

    fn write_binary(&self, sink: &mut BinaryFormatWriter) -> (r: Result<
        usize,
        BinaryFormatError,
    >) {
        let mut buffer: Vec<u8> = Vec::new();
        let _ = self.write_binary_to_vec(&mut buffer);
        assert(buffer@ =~= self.encoding());
        sink.write_bytes(&buffer)
    }
}

/// The number of bytes that an instruction takes depends on its kind alone, so patching it
/// moves no other instruction.
pub proof fn lemma_patch_keeps_size(instr: Instruction, offset: BranchOffset, index: u32)
    ensures
        1 <= instr.encoding().len() <= 10,
        instr.with_branch_offset(offset).encoding().len() == instr.encoding().len(),
        instr.with_call_index(index).encoding().len() == instr.encoding().len(),
{
}

/// The number that bytes hold, the most significant first.
pub open spec fn be_value(bytes: Seq<u8>) -> nat
    decreases bytes.len(),
{
    if bytes.len() == 0 {
        0
    } else {
        256 * be_value(bytes.drop_last()) + bytes.last() as nat
    }
}

/// Four bytes hold a number, the most significant first.
pub proof fn law_four_bytes_hold_a_number(value: u32)
    ensures
        be4(value).len() == 4,
        be_value(be4(value)) == value,
{
    let bytes = be4(value);
    reveal_with_fuel(be_value, 5);
    assert(bytes.drop_last() =~= bytes.take(3));
    assert(bytes.take(3).drop_last() =~= bytes.take(2));
    assert(bytes.take(2).drop_last() =~= bytes.take(1));
    assert(bytes.take(1).drop_last() =~= Seq::<u8>::empty());
}

/// Eight bytes hold a number, its upper half first.
pub proof fn law_eight_bytes_hold_a_number(value: u64)
    ensures
        be8(value).len() == 8,
        be_value(be8(value).take(4)) * 0x1_0000_0000 + be_value(be8(value).skip(4)) == value,
{
    let (upper, lower) = ((value / 0x1_0000_0000) as u32, (value % 0x1_0000_0000) as u32);
    assert(be8(value).take(4) =~= be4(upper));
    assert(be8(value).skip(4) =~= be4(lower));
    law_four_bytes_hold_a_number(upper);
    law_four_bytes_hold_a_number(lower);
}

/// Four bytes hold a pair: two for what is dropped, then two for what is kept.
pub proof fn law_four_bytes_hold_a_pair(pair: DropKeep)
    ensures
        be_drop_keep(pair).len() == 4,
        be_value(be_drop_keep(pair).take(2)) == pair.drop,
        be_value(be_drop_keep(pair).skip(2)) == pair.keep,
{
    let bytes = be_drop_keep(pair);
    reveal_with_fuel(be_value, 3);
    assert(bytes.take(2).drop_last() =~= seq![bytes[0]]);
    assert(bytes.skip(2).drop_last() =~= seq![bytes[2]]);
    assert(seq![bytes[0]].drop_last() =~= Seq::<u8>::empty());
    assert(seq![bytes[2]].drop_last() =~= Seq::<u8>::empty());
}

/// Each kind of instruction has a byte of its own, followed by what the instruction carries.
pub proof fn law_operation_bytes(
    number: u32,
    offset: BranchOffset,
    pair: DropKeep,
    value: UntypedValue,
    code: u8,
    immediate: u64,
)
    ensures
        Instruction::LocalGet(number).encoding() == seq![0u8] + be4(number),
        Instruction::LocalSet(number).encoding() == seq![1u8] + be4(number),
        Instruction::Br(offset).encoding() == seq![2u8] + be4(offset.0 as u32),
        Instruction::BrIfEqz(offset).encoding() == seq![3u8] + be4(offset.0 as u32),
        Instruction::BrIfNez(offset).encoding() == seq![4u8] + be4(offset.0 as u32),
        Instruction::BrAdjust(offset).encoding() == seq![5u8] + be4(offset.0 as u32),
        Instruction::BrAdjustIfNez(offset).encoding() == seq![6u8] + be4(offset.0 as u32),
        Instruction::BrIndirect.encoding() == seq![7u8],
        Instruction::Return(pair).encoding() == seq![8u8] + be_drop_keep(pair),
        Instruction::ReturnIfNez(pair).encoding() == seq![9u8] + be_drop_keep(pair),
        Instruction::ReturnCallInternal(number).encoding() == seq![10u8] + be4(number),
        Instruction::ReturnCall(number).encoding() == seq![11u8] + be4(number),
        Instruction::ReturnCallIndirect(number).encoding() == seq![12u8] + be4(number),
        Instruction::CallInternal(number).encoding() == seq![13u8] + be4(number),
        Instruction::Call(number).encoding() == seq![14u8] + be4(number),
        Instruction::CallIndirect(number).encoding() == seq![15u8] + be4(number),
        Instruction::Drop.encoding() == seq![16u8],
        Instruction::GlobalSet(number).encoding() == seq![17u8] + be4(number),
        Instruction::TableGrow(number).encoding() == seq![18u8] + be4(number),
        Instruction::TableGet(number).encoding() == seq![19u8] + be4(number),
        Instruction::TableSet(number).encoding() == seq![20u8] + be4(number),
        Instruction::RefFunc(number).encoding() == seq![21u8] + be4(number),
        Instruction::I32Const(value).encoding() == seq![22u8] + be8(value.bits),
        Instruction::I64Const(value).encoding() == seq![23u8] + be8(value.bits),
        Instruction::ConstRef(number).encoding() == seq![24u8] + be4(number),
        Instruction::I32Store8(number).encoding() == seq![25u8] + be4(number),
        Instruction::I32Store16(number).encoding() == seq![26u8] + be4(number),
        Instruction::I32Store(number).encoding() == seq![27u8] + be4(number),
        Instruction::I64Store(number).encoding() == seq![28u8] + be4(number),
        (Instruction::Operator { code, immediate }).encoding() == seq![29u8, code] + be8(immediate),
{
    assert(Instruction::BrIndirect.encoding() =~= seq![7u8]);
    assert(Instruction::Drop.encoding() =~= seq![16u8]);
    assert(Instruction::Operator { code, immediate }.encoding() =~= seq![29u8, code] + be8(
        immediate,
    ));
}

/// Bytes that begin with an instruction begin with no other, so that code can be read back
/// from its bytes.
pub proof fn law_bytes_determine_instruction(
    one: Instruction,
    other: Instruction,
    behind_one: Seq<u8>,
    behind_other: Seq<u8>,
)
    requires
        one.encoding() + behind_one == other.encoding() + behind_other,
    ensures
        one == other,
        behind_one == behind_other,
{
    let bytes = one.encoding() + behind_one;
    assert(bytes[0] == one.opcode() && bytes[0] == other.opcode());
    let (n, m) = (one.immediates(), other.immediates());
    assert(n.len() == m.len());
    let end = 1int + n.len();
    assert(n =~= bytes.subrange(1, end));
    assert(m =~= bytes.subrange(1, end));
    assert(behind_one =~= bytes.skip(end));
    assert(behind_other =~= bytes.skip(end));
    lemma_immediates_determine_instruction(one, other);
}

proof fn lemma_immediates_determine_instruction(one: Instruction, other: Instruction)
    requires
        one.opcode() == other.opcode(),
        one.immediates() == other.immediates(),
    ensures
        one == other,
{
    assert forall|a: u32, b: u32| #[trigger] be4(a) == #[trigger] be4(b) implies a == b by {
        law_four_bytes_hold_a_number(a);
        law_four_bytes_hold_a_number(b);
    }
    assert forall|a: u64, b: u64| #[trigger] be8(a) == #[trigger] be8(b) implies a == b by {
        law_eight_bytes_hold_a_number(a);
        law_eight_bytes_hold_a_number(b);
    }
    assert forall|a: DropKeep, b: DropKeep|
        #[trigger] be_drop_keep(a) == #[trigger] be_drop_keep(b) implies a == b by {
        law_four_bytes_hold_a_pair(a);
        law_four_bytes_hold_a_pair(b);
    }
    if one.jump_offset() is Some && other.jump_offset() is Some {
        let (a, b) = (one.jump_offset()->Some_0.0, other.jump_offset()->Some_0.0);
        assert(a as u32 == b as u32 ==> a == b) by (bit_vector);
    }
    match (one, other) {
        (
            Instruction::Operator { code: c, immediate: a },
            Instruction::Operator { code: d, immediate: b },
        ) => {
            let (n, m) = (one.immediates(), other.immediates());
            assert(n[0] == c && m[0] == d);
            assert(be8(a) =~= n.skip(1));
            assert(be8(b) =~= m.skip(1));
        },
        _ => {},
    }
}

} // verus!
