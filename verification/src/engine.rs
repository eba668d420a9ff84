//! The store of function types, compiled function bodies and constants.

use crate::common::UntypedValue;
use crate::common::ValueType;
use crate::instruction::Instruction;
use vstd::prelude::*;

verus! {

/// Settings of an engine.
pub struct Config {
    pub consume_fuel: bool,
}

/// The type of a function.
pub struct FuncType {
    pub params: Vec<ValueType>,
    pub results: Vec<ValueType>,
}

/// The body of a function.
pub struct FuncBody {
    pub len_locals: usize,
    pub instrs: Vec<Instruction>,
}

/// Function types, function bodies and constants, each by its index.
pub struct Engine {
    pub consume_fuel: bool,
    pub func_types: Vec<FuncType>,
    pub func_bodies: Vec<FuncBody>,
    pub consts: Vec<UntypedValue>,
}

/// A place in the body of a function.
#[derive(Clone, Copy, Debug, PartialEq, Eq, Structural)]
pub struct InstructionPtr {
    pub body: u32,
    pub pos: usize,
}

impl Config {
    pub fn default() -> (config: Config)
        ensures
            config.consume_fuel == false,
    {
        Config { consume_fuel: false }
    }

    pub fn consume_fuel(&mut self, enable: bool)
        ensures
            final(self).consume_fuel == enable,
    {
        self.consume_fuel = enable;
    }
}

impl InstructionPtr {
    /// Moves forward by `delta` instructions.
    pub fn add(&mut self, delta: usize)
        requires
            old(self).pos + delta <= usize::MAX,
        ensures
            final(self).body == old(self).body,
            final(self).pos == old(self).pos + delta,
    {
        self.pos = self.pos + delta;
    }

    /// The instruction at this place.
    pub fn get(&self, engine: &Engine) -> (instr: Instruction)
        requires
            self.body < engine.func_bodies@.len(),
            self.pos < engine.body_code(self.body).len(),
        ensures
            instr == engine.body_code(self.body)[self.pos as int],
    {
        engine.func_bodies[self.body as usize].instrs[self.pos]
    }
}

impl Engine {
    /// The code of a function body.
    pub open spec fn body_code(&self, body: u32) -> Seq<Instruction> {
        self.func_bodies@[body as int].instrs@
    }

    /// An empty engine.
    pub fn new(config: &Config) -> (engine: Engine)
        ensures
            engine.consume_fuel == config.consume_fuel,
            engine.func_types@.len() == 0,
            engine.func_bodies@.len() == 0,
            engine.consts@.len() == 0,
    {
        Engine {
            consume_fuel: config.consume_fuel,
            func_types: Vec::new(),
            func_bodies: Vec::new(),
            consts: Vec::new(),
        }
    }

    /// The function type with an index.
    pub fn resolve_func_type(&self, func_type: u32) -> (t: &FuncType)
        requires
            func_type < self.func_types@.len(),
        ensures
            *t == self.func_types@[func_type as int],
    {
        &self.func_types[func_type as usize]
    }

    /// The number of locals that a function body declares.
    pub fn num_locals(&self, body: u32) -> (n: usize)
        requires
            body < self.func_bodies@.len(),
        ensures
            n == self.func_bodies@[body as int].len_locals,
    {
        self.func_bodies[body as usize].len_locals
    }

    /// The first place of a function body, and the place behind its last instruction.
    pub fn instr_ptr(&self, body: u32) -> (range: (InstructionPtr, InstructionPtr))
        requires
            body < self.func_bodies@.len(),
        ensures
            range.0 == (InstructionPtr { body, pos: 0 }),
            range.1.body == body,
            range.1.pos == self.body_code(body).len(),
    {
        (
            InstructionPtr { body, pos: 0 },
            InstructionPtr { body, pos: self.func_bodies[body as usize].instrs.len() },
        )
    }

    /// The constant with an index.
    pub fn resolve_const(&self, index: u32) -> (value: Option<UntypedValue>)
        ensures
            value == if index < self.consts@.len() {
                Some(self.consts@[index as int])
            } else {
                None
            },
    {
        if (index as usize) < self.consts.len() {
            Some(self.consts[index as usize])
        } else {
            None
        }
    }
}

} // verus!
