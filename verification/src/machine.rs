//! The effect of straight-line code on the value stack and the linear memory.

use crate::common::UntypedValue;
use crate::instruction::Instruction;
use vstd::prelude::*;

verus! {

/// A value stack, its top last, and a linear memory.
#[verifier::ext_equal]
pub struct Machine {
    pub stack: Seq<UntypedValue>,
    pub memory: Seq<u8>,
}

/// The number that bytes stand for, the least significant byte first.
pub open spec fn le_value(bytes: Seq<u8>) -> nat
    decreases bytes.len(),
{
    if bytes.len() == 0 {
        0
    } else {
        bytes[0] as nat + 256 * le_value(bytes.skip(1))
    }
}

/// The lowest `width` bytes of a number, the least significant byte first.
pub open spec fn le_bytes(value: nat, width: nat) -> Seq<u8>
    decreases width,
{
    if width == 0 {
        Seq::empty()
    } else {
        seq![(value % 256) as u8] + le_bytes(value / 256, (width - 1) as nat)
    }
}

/// A memory with `bytes` written from `address` on.
pub open spec fn overwrite(memory: Seq<u8>, address: int, bytes: Seq<u8>) -> Seq<u8> {
    Seq::new(
        memory.len(),
        |a: int|
            if address <= a < address + bytes.len() {
                bytes[a - address]
            } else {
                memory[a]
            },
    )
}

impl Machine {
    /// Stores the lowest `width` bytes of the top value at the address below it plus
    /// `offset`, and pops both. A store that does not lie within the memory traps.
    pub open spec fn store(self, offset: u32, width: nat) -> Option<Machine> {
        let len = self.stack.len() as int;
        if len < 2 {
            None
        } else {
            let address = self.stack[len - 2].bits as int % 0x1_0000_0000 + offset;
            if address + width > self.memory.len() {
                None
            } else {
                Some(
                    Machine {
                        stack: self.stack.take(len - 2),
                        memory: overwrite(
                            self.memory,
                            address,
                            le_bytes(self.stack[len - 1].bits as nat, width),
                        ),
                    },
                )
            }
        }
    }

    /// One instruction, where it has an effect on the stack and the memory alone and does
    /// not trap.
    pub open spec fn step(self, instr: Instruction) -> Option<Machine> {
        let len = self.stack.len() as int;
        match instr {
            Instruction::LocalGet(depth) => if depth < len {
                Some(Machine { stack: self.stack.push(self.stack[len - 1 - depth]), ..self })
            } else {
                None
            },
            Instruction::LocalSet(depth) => if depth < len {
                Some(
                    Machine {
                        stack: self.stack.update(
                            len - 1 - depth,
                            self.stack[len - 1],
                        ).drop_last(),
                        ..self
                    },
                )
            } else {
                None
            },
            Instruction::Drop => if len > 0 {
                Some(Machine { stack: self.stack.drop_last(), ..self })
            } else {
                None
            },
            Instruction::I32Const(value) => Some(
                Machine { stack: self.stack.push(value), ..self },
            ),
            Instruction::I64Const(value) => Some(
                Machine { stack: self.stack.push(value), ..self },
            ),
            Instruction::I32Store8(offset) => self.store(offset, 1),
            Instruction::I32Store16(offset) => self.store(offset, 2),
            Instruction::I32Store(offset) => self.store(offset, 4),
            Instruction::I64Store(offset) => self.store(offset, 8),
            _ => None,
        }
    }

    /// A sequence of instructions, one after the other.
    pub open spec fn run(self, code: Seq<Instruction>) -> Option<Machine>
        decreases code.len(),
    {
        if code.len() == 0 {
            Some(self)
        } else {
            match self.run(code.drop_last()) {
                Some(machine) => machine.step(code.last()),
                None => None,
            }
        }
    }
}

/// Running two pieces of code in a row is running them joined.
pub proof fn lemma_run_append(machine: Machine, first: Seq<Instruction>, second: Seq<Instruction>)
    ensures
        machine.run(first + second) == match machine.run(first) {
            Some(middle) => middle.run(second),
            None => None,
        },
    decreases second.len(),
{
    if second.len() == 0 {
        assert(first + second =~= first);
    } else {
        lemma_run_append(machine, first, second.drop_last());
        assert((first + second).drop_last() =~= first + second.drop_last());
    }
}

/// Running one instruction is one step.
pub proof fn lemma_run_one(machine: Machine, instr: Instruction)
    ensures
        machine.run(seq![instr]) == machine.step(instr),
{
    assert(seq![instr].drop_last() =~= Seq::<Instruction>::empty());
    assert(machine.run(Seq::<Instruction>::empty()) == Some(machine));
}

/// The bytes of a number that bytes stand for are those bytes.
pub proof fn lemma_le_bytes_of_value(bytes: Seq<u8>)
    ensures
        le_bytes(le_value(bytes), bytes.len()) == bytes,
    decreases bytes.len(),
{
    if bytes.len() > 0 {
        let rest = bytes.skip(1);
        lemma_le_bytes_of_value(rest);
        let value = le_value(bytes);
        assert(value % 256 == bytes[0]);
        assert(value / 256 == le_value(rest));
        assert(bytes =~= seq![bytes[0]] + rest);
    }
}

/// Reading a local pushes the value that lies under as many values as its depth says.
pub proof fn law_local_get(
    machine: Machine,
    below: Seq<UntypedValue>,
    value: UntypedValue,
    above: Seq<UntypedValue>,
)
    requires
        machine.stack == below.push(value) + above,
        above.len() <= u32::MAX,
    ensures
        machine.step(Instruction::LocalGet(above.len() as u32)) == Some(
            Machine { stack: (below.push(value) + above).push(value), ..machine },
        ),
{
}

/// Writing a local pops the top value into the slot that lies under as many values, the top
/// included, as the depth says.
pub proof fn law_local_set(
    machine: Machine,
    below: Seq<UntypedValue>,
    value: UntypedValue,
    above: Seq<UntypedValue>,
    top: UntypedValue,
)
    requires
        machine.stack == (below.push(value) + above).push(top),
        above.len() < u32::MAX,
    ensures
        machine.step(Instruction::LocalSet((above.len() + 1) as u32)) == Some(
            Machine { stack: below.push(top) + above, ..machine },
        ),
{
    let len = machine.stack.len() as int;
    assert(machine.stack.update(len - 2 - above.len(), top).drop_last() =~= below.push(top)
        + above);
}

/// A constant is pushed, and a drop pops it.
pub proof fn law_push_and_drop(machine: Machine, value: UntypedValue)
    ensures
        machine.step(Instruction::I32Const(value)) == Some(
            Machine { stack: machine.stack.push(value), ..machine },
        ),
        machine.step(Instruction::I64Const(value)) == Some(
            Machine { stack: machine.stack.push(value), ..machine },
        ),
        (Machine { stack: machine.stack.push(value), ..machine }).step(Instruction::Drop) == Some(
            machine,
        ),
{
    assert(machine.stack.push(value).drop_last() =~= machine.stack);
}

/// A store writes the lowest bytes of a value at an address plus its offset, and pops both.
/// What lies elsewhere in the memory stays.
pub proof fn law_stores(machine: Machine, address: u32, offset: u32, bytes: Seq<u8>)
    requires
        bytes.len() == 8,
        address + offset + 8 <= machine.memory.len(),
    ensures
        ({
            let before = Machine {
                stack: machine.stack.push(UntypedValue { bits: address as u64 }).push(
                    UntypedValue { bits: le_value(bytes) as u64 },
                ),
                ..machine
            };
            let at = address + offset;
            let memory = machine.memory;
            &&& le_value(bytes) <= u64::MAX
            &&& before.step(Instruction::I32Store8(offset)) == Some(
                Machine { memory: memory.take(at) + bytes.take(1) + memory.skip(at + 1), ..machine },
            )
            &&& before.step(Instruction::I32Store16(offset)) == Some(
                Machine { memory: memory.take(at) + bytes.take(2) + memory.skip(at + 2), ..machine },
            )
            &&& before.step(Instruction::I32Store(offset)) == Some(
                Machine { memory: memory.take(at) + bytes.take(4) + memory.skip(at + 4), ..machine },
            )
            &&& before.step(Instruction::I64Store(offset)) == Some(
                Machine { memory: memory.take(at) + bytes.take(8) + memory.skip(at + 8), ..machine },
            )
        }),
{
    let before = Machine {
        stack: machine.stack.push(UntypedValue { bits: address as u64 }).push(
            UntypedValue { bits: le_value(bytes) as u64 },
        ),
        ..machine
    };
    let at = address + offset;
    let memory = machine.memory;
    lemma_le_value_fits(bytes);
    lemma_le_bytes_are_lowest(bytes, 1);
    lemma_le_bytes_are_lowest(bytes, 2);
    lemma_le_bytes_are_lowest(bytes, 4);
    lemma_le_bytes_are_lowest(bytes, 8);
    assert(before.stack.take(before.stack.len() - 2) =~= machine.stack);
    assert(overwrite(memory, at, bytes.take(1)) =~= memory.take(at) + bytes.take(1) + memory.skip(
        at + 1,
    ));
    assert(overwrite(memory, at, bytes.take(2)) =~= memory.take(at) + bytes.take(2) + memory.skip(
        at + 2,
    ));
    assert(overwrite(memory, at, bytes.take(4)) =~= memory.take(at) + bytes.take(4) + memory.skip(
        at + 4,
    ));
    assert(overwrite(memory, at, bytes.take(8)) =~= memory.take(at) + bytes.take(8) + memory.skip(
        at + 8,
    ));
}

proof fn lemma_le_value_fits(bytes: Seq<u8>)
    requires
        bytes.len() == 8,
    ensures
        le_value(bytes) <= u64::MAX,
{
    reveal_with_fuel(le_value, 9);
}

proof fn lemma_le_bytes_are_lowest(bytes: Seq<u8>, width: nat)
    requires
        width <= bytes.len(),
    ensures
        le_bytes(le_value(bytes), width) == bytes.take(width as int),
    decreases width,
{
    if width > 0 {
        let rest = bytes.skip(1);
        lemma_le_bytes_are_lowest(rest, (width - 1) as nat);
        let value = le_value(bytes);
        assert(value % 256 == bytes[0]);
        assert(value / 256 == le_value(rest));
        assert(bytes.take(width as int) =~= seq![bytes[0]] + rest.take(width - 1));
    }
}

} // verus!
