//! The declarations a program is made of: interfaces, record types,
//! closures, functions and imports.

use vstd::prelude::*;

use crate::identifier::Identifier;
use crate::program_id::ProgramID;

verus! {

/// The type of a literal value.
#[derive(Clone, Copy, Debug, PartialEq, Eq)]
pub enum LiteralType {
    Address,
    Boolean,
    Field,
    Group,
    I8,
    I16,
    I32,
    I64,
    I128,
    U8,
    U16,
    U32,
    U64,
    U128,
    Scalar,
    String,
}

/// The type of a plaintext value: a literal, or an interface declared by name.
#[derive(Clone, Debug, PartialEq, Eq)]
pub enum PlaintextType {
    Literal(LiteralType),
    Interface(Identifier),
}

/// The type of a record entry, with its visibility.
#[derive(Clone, Debug, PartialEq, Eq)]
pub enum EntryType {
    Constant(PlaintextType),
    Public(PlaintextType),
    Private(PlaintextType),
}

impl EntryType {
    /// The plaintext type inside the entry type.
    pub open spec fn plaintext_type(self) -> PlaintextType {
        match self {
            EntryType::Constant(t) => t,
            EntryType::Public(t) => t,
            EntryType::Private(t) => t,
        }
    }
}

/// The type held in a register of a closure.
#[derive(Clone, Debug, PartialEq, Eq)]
pub enum RegisterType {
    Plaintext(PlaintextType),
    Record(Identifier),
}

/// The type of a function input or output, with its visibility.
#[derive(Clone, Debug, PartialEq, Eq)]
pub enum ValueType {
    Constant(PlaintextType),
    Public(PlaintextType),
    Private(PlaintextType),
    Record(Identifier),
}

/// A register, with the path of members read from it (as in `r0.first`).
#[derive(Clone, Debug, PartialEq, Eq)]
pub struct Register {
    pub locator: u64,
    pub members: Vec<Identifier>,
}

/// An instruction: its opcode, the registers it reads and the registers it writes.
#[derive(Clone, Debug, PartialEq, Eq)]
pub struct Instruction {
    pub opcode: Vec<u8>,
    pub operands: Vec<Register>,
    pub destinations: Vec<u64>,
}

/// An interface: a named list of typed members.
#[derive(Clone, Debug, PartialEq, Eq)]
pub struct Interface {
    pub name: Identifier,
    pub members: Vec<(Identifier, PlaintextType)>,
}

impl Interface {
    pub fn new(name: Identifier, members: Vec<(Identifier, PlaintextType)>) -> (r: Interface)
        ensures
            r.name == name,
            r.members == members,
    {
        Interface { name, members }
    }

    /// Returns the name of the interface.
    pub fn name(&self) -> (r: &Identifier)
        ensures
            *r == self.name,
    {
        &self.name
    }

    /// Returns the members of the interface.
    pub fn members(&self) -> (r: &Vec<(Identifier, PlaintextType)>)
        ensures
            *r == self.members,
    {
        &self.members
    }
}

/// A record type: a named list of typed entries.
#[derive(Clone, Debug, PartialEq, Eq)]
pub struct RecordType {
    pub name: Identifier,
    pub entries: Vec<(Identifier, EntryType)>,
}

impl RecordType {
    pub fn new(name: Identifier, entries: Vec<(Identifier, EntryType)>) -> (r: RecordType)
        ensures
            r.name == name,
            r.entries == entries,
    {
        RecordType { name, entries }
    }

    /// Returns the name of the record type.
    pub fn name(&self) -> (r: &Identifier)
        ensures
            *r == self.name,
    {
        &self.name
    }

    /// Returns the entries of the record type.
    pub fn entries(&self) -> (r: &Vec<(Identifier, EntryType)>)
        ensures
            *r == self.entries,
    {
        &self.entries
    }
}

/// A closure: a named body of instructions over typed input and output registers.
#[derive(Clone, Debug, PartialEq, Eq)]
pub struct Closure {
    pub name: Identifier,
    pub inputs: Vec<(u64, RegisterType)>,
    pub instructions: Vec<Instruction>,
    pub outputs: Vec<(Register, RegisterType)>,
}

impl Closure {
    pub fn new(
        name: Identifier,
        inputs: Vec<(u64, RegisterType)>,
        instructions: Vec<Instruction>,
        outputs: Vec<(Register, RegisterType)>,
    ) -> (r: Closure)
        ensures
            r.name == name,
            r.inputs == inputs,
            r.instructions == instructions,
            r.outputs == outputs,
    {
        Closure { name, inputs, instructions, outputs }
    }

    /// Returns the name of the closure.
    pub fn name(&self) -> (r: &Identifier)
        ensures
            *r == self.name,
    {
        &self.name
    }
}

/// A function: a named body of instructions over typed input and output values.
#[derive(Clone, Debug, PartialEq, Eq)]
pub struct Function {
    pub name: Identifier,
    pub inputs: Vec<(u64, ValueType)>,
    pub instructions: Vec<Instruction>,
    pub outputs: Vec<(Register, ValueType)>,
}

impl Function {
    pub fn new(
        name: Identifier,
        inputs: Vec<(u64, ValueType)>,
        instructions: Vec<Instruction>,
        outputs: Vec<(Register, ValueType)>,
    ) -> (r: Function)
        ensures
            r.name == name,
            r.inputs == inputs,
            r.instructions == instructions,
            r.outputs == outputs,
    {
        Function { name, inputs, instructions, outputs }
    }

    /// Returns the name of the function.
    pub fn name(&self) -> (r: &Identifier)
        ensures
            *r == self.name,
    {
        &self.name
    }
}

/// An import of another program.
#[derive(Clone, Debug, PartialEq, Eq)]
pub struct Import {
    pub program_id: ProgramID,
}

impl Import {
    pub fn new(program_id: ProgramID) -> (r: Import)
        ensures
            r.program_id == program_id,
    {
        Import { program_id }
    }

    /// Returns the ID of the imported program.
    pub fn id(&self) -> (r: &ProgramID)
        ensures
            *r == self.program_id,
    {
        &self.program_id
    }

    /// Returns the name of the imported program.
    pub fn name(&self) -> (r: &Identifier)
        ensures
            r@ == self.program_id@.0,
    {
        self.program_id.name()
    }
}

} // verus!
