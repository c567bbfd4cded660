//! A program: the registry of its imports, interfaces, record types,
//! closures and functions, with the rules that each addition must meet.

use vstd::prelude::*;

use crate::body::{
    check_registers, lemma_registers_error_none, locators, plaintext_type_defined, register_type_defined,
    registers_error, registers_in_order, value_type_defined,
};
use crate::definitions::{
    Closure, EntryType, Function, Import, Interface, PlaintextType, RecordType, Register, RegisterType, ValueType,
};
use crate::identifier::Identifier;
use crate::program_id::{encode_program_id, ProgramID, ProgramIdView};
use crate::request::{Request, Value};
use crate::registry::Registry;
use crate::reserved::{is_keyword, is_keyword_exec, is_opcode_name, is_opcode_name_exec};

verus! {

/// The largest number of inputs of a closure or function.
pub const MAX_INPUTS: usize = 8;

/// The largest number of outputs of a closure or function.
pub const MAX_OUTPUTS: usize = 8;

/// What a name in a program stands for.
#[derive(Clone, Copy, Debug, PartialEq, Eq)]
pub enum ProgramDefinition {
    Interface,
    Record,
    Closure,
    Function,
}

/// Why a declaration could not be added to a program, or looked up in it.
#[derive(Clone, Copy, Debug, PartialEq, Eq)]
pub enum ProgramError {
    /// The name is already declared in the program.
    NameInUse,
    /// The name is the root of an opcode.
    ReservedOpcode,
    /// The name, or the name of a member or entry, is a reserved keyword.
    ReservedKeyword,
    /// The program already imports this program.
    ImportExists,
    /// The interface has no members.
    MissingMembers,
    /// A member or entry names an interface that the program does not declare.
    UndefinedInterface,
    /// The program already holds a record type: only one is allowed.
    TooManyRecords,
    /// The closure or function has no inputs.
    MissingInputs,
    /// The closure or function has more than `MAX_INPUTS` inputs.
    TooManyInputs,
    /// The closure or function has no instructions.
    MissingInstructions,
    /// The closure or function has more than `MAX_OUTPUTS` outputs.
    TooManyOutputs,
    /// An input or output type names an interface or record type that the
    /// program does not declare.
    UndefinedType,
    /// An input or destination register is assigned already.
    RegisterReassigned,
    /// An input or destination register is not the next one: registers are
    /// assigned in order, `r0`, `r1`, and so on.
    RegisterOutOfOrder,
    /// An instruction reads, or an output names, a register that is not
    /// assigned before it.
    UndefinedRegister,
    /// The declaration is already stored under its name.
    AlreadyExists,
    /// No declaration of that kind has the name.
    NotDefined,
    /// The request could not be signed.
    SigningFailed,
}

/// What stands against a closure or function body with these numbers of
/// inputs, instructions and outputs, checked in this order.
pub open spec fn body_error(num_inputs: nat, num_instructions: nat, num_outputs: nat) -> Option<ProgramError> {
    if num_inputs == 0 {
        Some(ProgramError::MissingInputs)
    } else if num_inputs > MAX_INPUTS {
        Some(ProgramError::TooManyInputs)
    } else if num_instructions == 0 {
        Some(ProgramError::MissingInstructions)
    } else if num_outputs > MAX_OUTPUTS {
        Some(ProgramError::TooManyOutputs)
    } else {
        None
    }
}

pub open spec fn closure_error(c: Closure) -> Option<ProgramError> {
    body_error(c.inputs@.len(), c.instructions@.len(), c.outputs@.len())
}

pub open spec fn function_error(f: Function) -> Option<ProgramError> {
    body_error(f.inputs@.len(), f.instructions@.len(), f.outputs@.len())
}

/// The model of a program: each declaration by name, what each name stands
/// for, and the closures and functions in the order they were added.
pub struct ProgramModel {
    pub id: ProgramIdView,
    /// The imports, each under the bytes of the imported program's ID.
    pub imports: Map<Seq<u8>, Import>,
    pub identifiers: Map<Seq<u8>, ProgramDefinition>,
    pub interfaces: Map<Seq<u8>, Interface>,
    pub records: Map<Seq<u8>, RecordType>,
    pub closures: Map<Seq<u8>, Closure>,
    pub functions: Map<Seq<u8>, Function>,
    /// The names of the interfaces, in the order they were added.
    pub interface_order: Seq<Seq<u8>>,
    pub closure_order: Seq<Closure>,
    pub function_order: Seq<Function>,
}

impl ProgramModel {
    /// A program with the given ID that declares nothing.
    pub open spec fn empty(id: ProgramIdView) -> ProgramModel {
        ProgramModel {
            id,
            imports: Map::empty(),
            identifiers: Map::empty(),
            interfaces: Map::empty(),
            records: Map::empty(),
            closures: Map::empty(),
            functions: Map::empty(),
            interface_order: Seq::empty(),
            closure_order: Seq::empty(),
            function_order: Seq::empty(),
        }
    }

    /// What stands against declaring `name`: it is in use, an opcode root or
    /// a keyword, checked in this order.
    pub open spec fn name_error(self, name: Seq<u8>) -> Option<ProgramError> {
        if self.identifiers.dom().contains(name) {
            Some(ProgramError::NameInUse)
        } else if is_opcode_name(name) {
            Some(ProgramError::ReservedOpcode)
        } else if is_keyword(name) {
            Some(ProgramError::ReservedKeyword)
        } else {
            None
        }
    }

    /// What stands against a plaintext type: it names an undeclared interface.
    pub open spec fn plaintext_type_error(self, t: PlaintextType) -> Option<ProgramError> {
        match t {
            PlaintextType::Literal(_) => None,
            PlaintextType::Interface(name) => if self.interfaces.dom().contains(name@) {
                None
            } else {
                Some(ProgramError::UndefinedInterface)
            },
        }
    }

    /// What stands against a member (or entry) with this name and type.
    pub open spec fn member_error(self, name: Identifier, t: PlaintextType) -> Option<ProgramError> {
        if is_keyword(name@) {
            Some(ProgramError::ReservedKeyword)
        } else {
            self.plaintext_type_error(t)
        }
    }

    /// The first thing that stands against one of the members, in order.
    pub open spec fn members_error(self, members: Seq<(Identifier, PlaintextType)>) -> Option<ProgramError>
        decreases members.len(),
    {
        if members.len() == 0 {
            None
        } else {
            match self.member_error(members[0].0, members[0].1) {
                Some(e) => Some(e),
                None => self.members_error(members.drop_first()),
            }
        }
    }

    /// The first thing that stands against one of the entries, in order.
    pub open spec fn entries_error(self, entries: Seq<(Identifier, EntryType)>) -> Option<ProgramError>
        decreases entries.len(),
    {
        if entries.len() == 0 {
            None
        } else {
            match self.member_error(entries[0].0, entries[0].1.plaintext_type()) {
                Some(e) => Some(e),
                None => self.entries_error(entries.drop_first()),
            }
        }
    }

    pub open spec fn add_import_error(self, import: Import) -> Option<ProgramError> {
        match self.name_error(import.program_id@.0) {
            Some(e) => Some(e),
            None => if self.imports.dom().contains(encode_program_id(import.program_id@)) {
                Some(ProgramError::ImportExists)
            } else {
                None
            },
        }
    }

    pub open spec fn add_interface_error(self, interface: Interface) -> Option<ProgramError> {
        match self.name_error(interface.name@) {
            Some(e) => Some(e),
            None => if interface.members@.len() == 0 {
                Some(ProgramError::MissingMembers)
            } else {
                self.members_error(interface.members@)
            },
        }
    }

    pub open spec fn add_record_error(self, record: RecordType) -> Option<ProgramError> {
        if self.records.len() > 0 {
            Some(ProgramError::TooManyRecords)
        } else {
            match self.name_error(record.name@) {
                Some(e) => Some(e),
                None => self.entries_error(record.entries@),
            }
        }
    }

    /// The inputs of a closure: each register, with whether its type names
    /// only declarations of the program.
    pub open spec fn closure_inputs(self, c: Closure) -> Seq<(u64, bool)> {
        c.inputs@.map_values(
            |input: (u64, RegisterType)| (input.0, register_type_defined(self.interfaces.dom(), self.records.dom(), input.1)),
        )
    }

    /// The outputs of a closure: each register read, with whether its type
    /// names only declarations of the program.
    pub open spec fn closure_outputs(self, c: Closure) -> Seq<(u64, bool)> {
        c.outputs@.map_values(
            |output: (Register, RegisterType)|
                (output.0.locator, register_type_defined(self.interfaces.dom(), self.records.dom(), output.1)),
        )
    }

    pub open spec fn function_inputs(self, f: Function) -> Seq<(u64, bool)> {
        f.inputs@.map_values(
            |input: (u64, ValueType)| (input.0, value_type_defined(self.interfaces.dom(), self.records.dom(), input.1)),
        )
    }

    pub open spec fn function_outputs(self, f: Function) -> Seq<(u64, bool)> {
        f.outputs@.map_values(
            |output: (Register, ValueType)|
                (output.0.locator, value_type_defined(self.interfaces.dom(), self.records.dom(), output.1)),
        )
    }

    /// What stands against the registers and types of a closure.
    pub open spec fn closure_registers_error(self, c: Closure) -> Option<ProgramError> {
        registers_error(self.closure_inputs(c), c.instructions@, self.closure_outputs(c))
    }

    /// What stands against the registers and types of a function.
    pub open spec fn function_registers_error(self, f: Function) -> Option<ProgramError> {
        registers_error(self.function_inputs(f), f.instructions@, self.function_outputs(f))
    }

    pub open spec fn add_closure_error(self, closure: Closure) -> Option<ProgramError> {
        match self.name_error(closure.name@) {
            Some(e) => Some(e),
            None => match closure_error(closure) {
                Some(e) => Some(e),
                None => self.closure_registers_error(closure),
            },
        }
    }

    pub open spec fn add_function_error(self, function: Function) -> Option<ProgramError> {
        match self.name_error(function.name@) {
            Some(e) => Some(e),
            None => match function_error(function) {
                Some(e) => Some(e),
                None => self.function_registers_error(function),
            },
        }
    }

    pub open spec fn add_import(self, import: Import) -> ProgramModel {
        ProgramModel { imports: self.imports.insert(encode_program_id(import.program_id@), import), ..self }
    }

    pub open spec fn add_interface(self, interface: Interface) -> ProgramModel {
        ProgramModel {
            identifiers: self.identifiers.insert(interface.name@, ProgramDefinition::Interface),
            interfaces: self.interfaces.insert(interface.name@, interface),
            interface_order: self.interface_order.push(interface.name@),
            ..self
        }
    }

    pub open spec fn add_record(self, record: RecordType) -> ProgramModel {
        ProgramModel {
            identifiers: self.identifiers.insert(record.name@, ProgramDefinition::Record),
            records: self.records.insert(record.name@, record),
            ..self
        }
    }

    pub open spec fn add_closure(self, closure: Closure) -> ProgramModel {
        ProgramModel {
            identifiers: self.identifiers.insert(closure.name@, ProgramDefinition::Closure),
            closures: self.closures.insert(closure.name@, closure),
            closure_order: self.closure_order.push(closure),
            ..self
        }
    }

    pub open spec fn add_function(self, function: Function) -> ProgramModel {
        ProgramModel {
            identifiers: self.identifiers.insert(function.name@, ProgramDefinition::Function),
            functions: self.functions.insert(function.name@, function),
            function_order: self.function_order.push(function),
            ..self
        }
    }

    pub open spec fn get_interface_error(self, name: Seq<u8>) -> Option<ProgramError> {
        if !self.interfaces.dom().contains(name) {
            Some(ProgramError::NotDefined)
        } else if self.interfaces[name].members@.len() == 0 {
            Some(ProgramError::MissingMembers)
        } else {
            None
        }
    }

    pub open spec fn get_record_error(self, name: Seq<u8>) -> Option<ProgramError> {
        if !self.records.dom().contains(name) {
            Some(ProgramError::NotDefined)
        } else {
            None
        }
    }

    pub open spec fn get_closure_error(self, name: Seq<u8>) -> Option<ProgramError> {
        if !self.closures.dom().contains(name) {
            Some(ProgramError::NotDefined)
        } else {
            closure_error(self.closures[name])
        }
    }

    pub open spec fn get_function_error(self, name: Seq<u8>) -> Option<ProgramError> {
        if !self.functions.dom().contains(name) {
            Some(ProgramError::NotDefined)
        } else {
            function_error(self.functions[name])
        }
    }

    /// Where a member type found in the interface at position `p` of the
    /// order names only an interface added before it.
    pub open spec fn refers_earlier(self, p: int, t: PlaintextType) -> bool {
        t matches PlaintextType::Interface(name) ==> exists|q: int|
            0 <= q < p && #[trigger] self.interface_order[q] == name@
    }

    /// The rules that every program built by adding declarations keeps.
    pub open spec fn valid(self) -> bool {
        // Each name stands for exactly the kind of declaration stored under it.
        &&& forall|k: Seq<u8>| #[trigger]
            self.identifiers.dom().contains(k) <==> (self.interfaces.dom().contains(k)
                || self.records.dom().contains(k) || self.closures.dom().contains(k)
                || self.functions.dom().contains(k))
        &&& forall|k: Seq<u8>| #[trigger]
            self.interfaces.dom().contains(k) ==> self.identifiers[k] == ProgramDefinition::Interface
        &&& forall|k: Seq<u8>| #[trigger]
            self.records.dom().contains(k) ==> self.identifiers[k] == ProgramDefinition::Record
        &&& forall|k: Seq<u8>| #[trigger]
            self.closures.dom().contains(k) ==> self.identifiers[k] == ProgramDefinition::Closure
        &&& forall|k: Seq<u8>| #[trigger]
            self.functions.dom().contains(k) ==> self.identifiers[k] == ProgramDefinition::Function
        // No declared name is reserved.
        &&& forall|k: Seq<u8>| #[trigger]
            self.identifiers.dom().contains(k) ==> !is_opcode_name(k) && !is_keyword(k)
        // Each declaration is stored under its own name, and meets its rules.
        &&& forall|k: Seq<u8>| #[trigger]
            self.interfaces.dom().contains(k) ==> {
                &&& self.interfaces[k].name@ == k
                &&& self.interfaces[k].members@.len() > 0
                &&& forall|j: int|
                    0 <= j < self.interfaces[k].members@.len() ==> #[trigger] self.member_error(
                        self.interfaces[k].members@[j].0,
                        self.interfaces[k].members@[j].1,
                    ) is None
            }
        &&& forall|k: Seq<u8>| #[trigger]
            self.records.dom().contains(k) ==> {
                &&& self.records[k].name@ == k
                &&& forall|j: int|
                    0 <= j < self.records[k].entries@.len() ==> #[trigger] self.member_error(
                        self.records[k].entries@[j].0,
                        self.records[k].entries@[j].1.plaintext_type(),
                    ) is None
            }
        &&& forall|k: Seq<u8>| #[trigger]
            self.closures.dom().contains(k) ==> {
                &&& self.closures[k].name@ == k
                &&& closure_error(self.closures[k]) is None
                &&& self.closure_registers_error(self.closures[k]) is None
            }
        &&& forall|k: Seq<u8>| #[trigger]
            self.functions.dom().contains(k) ==> {
                &&& self.functions[k].name@ == k
                &&& function_error(self.functions[k]) is None
                &&& self.function_registers_error(self.functions[k]) is None
            }
        // Each import is stored under the bytes of its program's ID.
        &&& forall|k: Seq<u8>| #[trigger]
            self.imports.dom().contains(k) ==> k == encode_program_id(self.imports[k].program_id@)
        // The interfaces in the order they were added; each names only
        // interfaces added before it.
        &&& self.interface_order.no_duplicates()
        &&& forall|k: Seq<u8>| #[trigger] self.interfaces.dom().contains(k) <==> self.interface_order.contains(k)
        &&& forall|p: int, j: int|
            0 <= p < self.interface_order.len() && 0 <= j < self.interfaces[self.interface_order[p]].members@.len()
                ==> #[trigger] self.refers_earlier(p, self.interfaces[self.interface_order[p]].members@[j].1)
        // At most one record type.
        &&& self.records.dom().finite()
        &&& self.records.len() <= 1
    }
}

/// A member list meets the rules exactly where no member stands against them.
pub proof fn lemma_members_error(m: ProgramModel, members: Seq<(Identifier, PlaintextType)>)
    ensures
        m.members_error(members) is None <==> forall|j: int|
            0 <= j < members.len() ==> #[trigger] m.member_error(members[j].0, members[j].1) is None,
    decreases members.len(),
{
    if members.len() > 0 {
        lemma_members_error(m, members.drop_first());
        if m.member_error(members[0].0, members[0].1) is None {
            assert forall|j: int|
                0 <= j < members.len() && (forall|i: int|
                    0 <= i < members.drop_first().len() ==> #[trigger] m.member_error(
                        members.drop_first()[i].0,
                        members.drop_first()[i].1,
                    ) is None) implies #[trigger] m.member_error(members[j].0, members[j].1) is None by {
                if j > 0 {
                    assert(members[j] == members.drop_first()[j - 1]);
                }
            }
            assert((forall|j: int|
                0 <= j < members.len() ==> #[trigger] m.member_error(members[j].0, members[j].1) is None)
                ==> (forall|i: int|
                0 <= i < members.drop_first().len() ==> #[trigger] m.member_error(
                    members.drop_first()[i].0,
                    members.drop_first()[i].1,
                ) is None)) by {
                assert forall|i: int|
                    0 <= i < members.drop_first().len() && (forall|j: int|
                        0 <= j < members.len() ==> #[trigger] m.member_error(members[j].0, members[j].1)
                            is None) implies #[trigger] m.member_error(
                    members.drop_first()[i].0,
                    members.drop_first()[i].1,
                ) is None by {
                    assert(members[i + 1] == members.drop_first()[i]);
                }
            }
        }
    }
}

/// An entry list meets the rules exactly where no entry stands against them.
pub proof fn lemma_entries_error(m: ProgramModel, entries: Seq<(Identifier, EntryType)>)
    ensures
        m.entries_error(entries) is None <==> forall|j: int|
            0 <= j < entries.len() ==> #[trigger] m.member_error(entries[j].0, entries[j].1.plaintext_type())
                is None,
    decreases entries.len(),
{
    if entries.len() > 0 {
        lemma_entries_error(m, entries.drop_first());
        if m.member_error(entries[0].0, entries[0].1.plaintext_type()) is None {
            assert forall|j: int|
                0 <= j < entries.len() && (forall|i: int|
                    0 <= i < entries.drop_first().len() ==> #[trigger] m.member_error(
                        entries.drop_first()[i].0,
                        entries.drop_first()[i].1.plaintext_type(),
                    ) is None) implies #[trigger] m.member_error(entries[j].0, entries[j].1.plaintext_type())
                is None by {
                if j > 0 {
                    assert(entries[j] == entries.drop_first()[j - 1]);
                }
            }
            assert((forall|j: int|
                0 <= j < entries.len() ==> #[trigger] m.member_error(entries[j].0, entries[j].1.plaintext_type())
                    is None) ==> (forall|i: int|
                0 <= i < entries.drop_first().len() ==> #[trigger] m.member_error(
                    entries.drop_first()[i].0,
                    entries.drop_first()[i].1.plaintext_type(),
                ) is None)) by {
                assert forall|i: int|
                    0 <= i < entries.drop_first().len() && (forall|j: int|
                        0 <= j < entries.len() ==> #[trigger] m.member_error(
                            entries[j].0,
                            entries[j].1.plaintext_type(),
                        ) is None) implies #[trigger] m.member_error(
                    entries.drop_first()[i].0,
                    entries.drop_first()[i].1.plaintext_type(),
                ) is None by {
                    assert(entries[i + 1] == entries.drop_first()[i]);
                }
            }
        }
    }
}

/// A program: its ID and the declarations added to it.
pub struct Program {
    id: ProgramID,
    imports: Registry<Import>,
    identifiers: Registry<ProgramDefinition>,
    interfaces: Registry<Interface>,
    records: Registry<RecordType>,
    closures: Registry<Closure>,
    functions: Registry<Function>,
}

impl View for Program {
    type V = ProgramModel;

    closed spec fn view(&self) -> ProgramModel {
        ProgramModel {
            id: self.id@,
            imports: self.imports.map(),
            identifiers: self.identifiers.map(),
            interfaces: self.interfaces.map(),
            records: self.records.map(),
            closures: self.closures.map(),
            functions: self.functions.map(),
            interface_order: self.interfaces.names(),
            closure_order: self.closures.items(),
            function_order: self.functions.items(),
        }
    }
}

impl Program {
    /// The program is well formed: its model is valid.
    pub closed spec fn wf(&self) -> bool {
        &&& self.imports.wf()
        &&& self.identifiers.wf()
        &&& self.interfaces.wf()
        &&& self.records.wf()
        &&& self.closures.wf()
        &&& self.functions.wf()
        &&& self@.valid()
    }

    /// A well-formed program has a valid model.
    pub proof fn lemma_wf_valid(&self)
        requires
            self.wf(),
        ensures
            self@.valid(),
    {
    }

    /// Returns a program with the given ID that declares nothing.
    pub fn new(id: ProgramID) -> (r: Program)
        ensures
            r.wf(),
            r@ == ProgramModel::empty(id@),
    {
        let r = Program {
            id,
            imports: Registry::new(),
            identifiers: Registry::new(),
            interfaces: Registry::new(),
            records: Registry::new(),
            closures: Registry::new(),
            functions: Registry::new(),
        };
        assert(r@ =~= ProgramModel::empty(id@));
        r
    }

    /// The ID of the program.
    pub closed spec fn spec_id(&self) -> ProgramID {
        self.id
    }

    /// Signs a request to call the function `function_name` on `inputs`:
    /// the function is looked up, and `sign_request` is given the program ID,
    /// the function name, the inputs and the function's input types.
    pub fn sign<S: FnOnce(&ProgramID, &Identifier, Vec<Value>, &Vec<(u64, ValueType)>) -> Option<Request>>(
        &self,
        function_name: &Identifier,
        inputs: Vec<Value>,
        sign_request: S,
    ) -> (r: Result<Request, ProgramError>)
        requires
            self.wf(),
            forall|types: &Vec<(u64, ValueType)>| #[trigger] call_requires(
                sign_request,
                (&self.spec_id(), function_name, inputs, types),
            ),
        ensures
            match self@.get_function_error(function_name@) {
                Some(e) => r == Err::<Request, ProgramError>(e),
                None => exists|out: Option<Request>| #[trigger] call_ensures(
                    sign_request,
                    (&self.spec_id(), function_name, inputs, &self@.functions[function_name@].inputs),
                    out,
                ) && r == match out {
                    Some(request) => Ok::<Request, ProgramError>(request),
                    None => Err(ProgramError::SigningFailed),
                },
            },
    {
        let function = self.get_function(function_name)?;
        assert(call_requires(sign_request, (&self.spec_id(), function_name, inputs, &function.inputs)));
        let out = sign_request(&self.id, function_name, inputs, &function.inputs);
        match out {
            Some(request) => Ok(request),
            None => Err(ProgramError::SigningFailed),
        }
    }

    /// Returns the ID of the program.
    pub fn id(&self) -> (r: &ProgramID)
        ensures
            r@ == self@.id,
            *r == self.spec_id(),
    {
        &self.id
    }

    /// Returns the closures of the program, in the order they were added.
    pub fn closures(&self) -> (r: &Vec<Closure>)
        ensures
            r@ == self@.closure_order,
    {
        self.closures.as_vec()
    }

    /// Returns the functions of the program, in the order they were added.
    pub fn functions(&self) -> (r: &Vec<Function>)
        ensures
            r@ == self@.function_order,
    {
        self.functions.as_vec()
    }

    /// Returns whether the program declares an interface with the given name.
    pub fn contains_interface(&self, name: &Identifier) -> (r: bool)
        ensures
            r == self@.interfaces.dom().contains(name@),
    {
        self.interfaces.contains(&name.to_key())
    }

    /// Returns whether the program declares a record type with the given name.
    pub fn contains_record(&self, name: &Identifier) -> (r: bool)
        ensures
            r == self@.records.dom().contains(name@),
    {
        self.records.contains(&name.to_key())
    }

    /// Returns whether the program declares a closure with the given name.
    pub fn contains_closure(&self, name: &Identifier) -> (r: bool)
        ensures
            r == self@.closures.dom().contains(name@),
    {
        self.closures.contains(&name.to_key())
    }

    /// Returns whether the program declares a function with the given name.
    pub fn contains_function(&self, name: &Identifier) -> (r: bool)
        ensures
            r == self@.functions.dom().contains(name@),
    {
        self.functions.contains(&name.to_key())
    }

    /// Returns the interface with the given name.
    pub fn get_interface(&self, name: &Identifier) -> (r: Result<&Interface, ProgramError>)
        requires
            self.wf(),
        ensures
            match r {
                Ok(interface) => self@.get_interface_error(name@) is None && *interface
                    == self@.interfaces[name@],
                Err(e) => self@.get_interface_error(name@) == Some(e),
            },
    {
        match self.interfaces.get(&name.to_key()) {
            None => Err(ProgramError::NotDefined),
            Some(interface) => {
                if interface.members.len() == 0 {
                    Err(ProgramError::MissingMembers)
                } else {
                    Ok(interface)
                }
            },
        }
    }

    /// Returns the record type with the given name.
    pub fn get_record(&self, name: &Identifier) -> (r: Result<&RecordType, ProgramError>)
        requires
            self.wf(),
        ensures
            match r {
                Ok(record) => self@.get_record_error(name@) is None && *record == self@.records[name@],
                Err(e) => self@.get_record_error(name@) == Some(e),
            },
    {
        match self.records.get(&name.to_key()) {
            None => Err(ProgramError::NotDefined),
            Some(record) => Ok(record),
        }
    }

    /// Returns the closure with the given name.
    pub fn get_closure(&self, name: &Identifier) -> (r: Result<&Closure, ProgramError>)
        requires
            self.wf(),
        ensures
            match r {
                Ok(closure) => self@.get_closure_error(name@) is None && *closure == self@.closures[name@],
                Err(e) => self@.get_closure_error(name@) == Some(e),
            },
    {
        match self.closures.get(&name.to_key()) {
            None => Err(ProgramError::NotDefined),
            Some(closure) => {
                check_body(closure.inputs.len(), closure.instructions.len(), closure.outputs.len())?;
                Ok(closure)
            },
        }
    }

    /// Returns the function with the given name.
    pub fn get_function(&self, name: &Identifier) -> (r: Result<&Function, ProgramError>)
        requires
            self.wf(),
        ensures
            match r {
                Ok(function) => self@.get_function_error(name@) is None && *function
                    == self@.functions[name@],
                Err(e) => self@.get_function_error(name@) == Some(e),
            },
    {
        match self.functions.get(&name.to_key()) {
            None => Err(ProgramError::NotDefined),
            Some(function) => {
                check_body(function.inputs.len(), function.instructions.len(), function.outputs.len())?;
                Ok(function)
            },
        }
    }

    /// Returns whether the given name is not yet declared in the program.
    fn is_unique_name(&self, name: &Identifier) -> (r: bool)
        ensures
            r == !self@.identifiers.dom().contains(name@),
    {
        !self.identifiers.contains(&name.to_key())
    }

    /// Returns whether the given name is the part of an opcode before its first `.`.
    fn is_reserved_opcode(&self, name: &Identifier) -> (r: bool)
        ensures
            r == is_opcode_name(name@),
    {
        is_opcode_name_exec(name.as_bytes())
    }

    /// Returns whether the given name is a reserved keyword.
    fn is_reserved_keyword(&self, name: &Identifier) -> (r: bool)
        ensures
            r == is_keyword(name@),
    {
        is_keyword_exec(name.as_bytes())
    }

    /// Checks a name about to be declared: it is new, not an opcode root and
    /// not a keyword.
    fn check_name(&self, name: &Identifier) -> (r: Result<(), ProgramError>)
        ensures
            match r {
                Ok(()) => self@.name_error(name@) is None,
                Err(e) => self@.name_error(name@) == Some(e),
            },
    {
        if !self.is_unique_name(name) {
            return Err(ProgramError::NameInUse);
        }
        if self.is_reserved_opcode(name) {
            return Err(ProgramError::ReservedOpcode);
        }
        if self.is_reserved_keyword(name) {
            return Err(ProgramError::ReservedKeyword);
        }
        Ok(())
    }

    /// Checks a member or entry: its name is not a keyword, and the interface
    /// its type names, if any, is declared.
    fn check_member(&self, name: &Identifier, t: &PlaintextType) -> (r: Result<(), ProgramError>)
        ensures
            match r {
                Ok(()) => self@.member_error(*name, *t) is None,
                Err(e) => self@.member_error(*name, *t) == Some(e),
            },
    {
        if self.is_reserved_keyword(name) {
            return Err(ProgramError::ReservedKeyword);
        }
        match t {
            PlaintextType::Literal(_) => Ok(()),
            PlaintextType::Interface(interface_name) => {
                if !self.interfaces.contains(&interface_name.to_key()) {
                    Err(ProgramError::UndefinedInterface)
                } else {
                    Ok(())
                }
            },
        }
    }

    /// Checks the members of an interface, in order.
    fn check_members(&self, members: &Vec<(Identifier, PlaintextType)>) -> (r: Result<(), ProgramError>)
        ensures
            match r {
                Ok(()) => self@.members_error(members@) is None,
                Err(e) => self@.members_error(members@) == Some(e),
            },
    {
        let len = members.len();
        let mut i: usize = 0;
        assert(members@.subrange(0, len as int) =~= members@);
        while i < len
            invariant
                len == members@.len(),
                i <= len,
                self@.members_error(members@) == self@.members_error(members@.subrange(i as int, len as int)),
            decreases len - i,
        {
            let member = &members[i];
            let ghost rest = members@.subrange(i as int, len as int);
            assert(rest[0] == members@[i as int]);
            assert(rest.drop_first() =~= members@.subrange(i + 1, len as int));
            self.check_member(&member.0, &member.1)?;
            i = i + 1;
        }
        assert(members@.subrange(len as int, len as int) =~= Seq::<(Identifier, PlaintextType)>::empty());
        Ok(())
    }

    /// Checks the entries of a record type, in order.
    fn check_entries(&self, entries: &Vec<(Identifier, EntryType)>) -> (r: Result<(), ProgramError>)
        ensures
            match r {
                Ok(()) => self@.entries_error(entries@) is None,
                Err(e) => self@.entries_error(entries@) == Some(e),
            },
    {
        let len = entries.len();
        let mut i: usize = 0;
        assert(entries@.subrange(0, len as int) =~= entries@);
        while i < len
            invariant
                len == entries@.len(),
                i <= len,
                self@.entries_error(entries@) == self@.entries_error(entries@.subrange(i as int, len as int)),
            decreases len - i,
        {
            let entry = &entries[i];
            let ghost rest = entries@.subrange(i as int, len as int);
            assert(rest[0] == entries@[i as int]);
            assert(rest.drop_first() =~= entries@.subrange(i + 1, len as int));
            let plaintext_type = match &entry.1 {
                EntryType::Constant(t) => t,
                EntryType::Public(t) => t,
                EntryType::Private(t) => t,
            };
            self.check_member(&entry.0, plaintext_type)?;
            i = i + 1;
        }
        assert(entries@.subrange(len as int, len as int) =~= Seq::<(Identifier, EntryType)>::empty());
        Ok(())
    }

    /// Returns whether a plaintext type names only declared interfaces.
    fn plaintext_type_is_defined(&self, t: &PlaintextType) -> (r: bool)
        ensures
            r == plaintext_type_defined(self@.interfaces.dom(), *t),
    {
        match t {
            PlaintextType::Literal(_) => true,
            PlaintextType::Interface(name) => self.interfaces.contains(&name.to_key()),
        }
    }

    /// Returns whether a register type names only declared interfaces and record types.
    fn register_type_is_defined(&self, t: &RegisterType) -> (r: bool)
        ensures
            r == register_type_defined(self@.interfaces.dom(), self@.records.dom(), *t),
    {
        match t {
            RegisterType::Plaintext(p) => self.plaintext_type_is_defined(p),
            RegisterType::Record(name) => self.records.contains(&name.to_key()),
        }
    }

    /// Returns whether a value type names only declared interfaces and record types.
    fn value_type_is_defined(&self, t: &ValueType) -> (r: bool)
        ensures
            r == value_type_defined(self@.interfaces.dom(), self@.records.dom(), *t),
    {
        match t {
            ValueType::Constant(p) => self.plaintext_type_is_defined(p),
            ValueType::Public(p) => self.plaintext_type_is_defined(p),
            ValueType::Private(p) => self.plaintext_type_is_defined(p),
            ValueType::Record(name) => self.records.contains(&name.to_key()),
        }
    }

    /// Checks the registers of a closure, and that its types name only
    /// declarations of the program.
    fn check_closure_registers(&self, closure: &Closure) -> (r: Result<(), ProgramError>)
        ensures
            match r {
                Ok(()) => self@.closure_registers_error(*closure) is None,
                Err(e) => self@.closure_registers_error(*closure) == Some(e),
            },
    {
        let ghost all_inputs = self@.closure_inputs(*closure);
        let mut inputs: Vec<(u64, bool)> = Vec::new();
        let mut i: usize = 0;
        while i < closure.inputs.len()
            invariant
                i <= closure.inputs@.len(),
                all_inputs == self@.closure_inputs(*closure),
                inputs@ == all_inputs.subrange(0, i as int),
            decreases closure.inputs@.len() - i,
        {
            let input = &closure.inputs[i];
            inputs.push((input.0, self.register_type_is_defined(&input.1)));
            assert(inputs@ =~= all_inputs.subrange(0, i + 1));
            i = i + 1;
        }
        assert(inputs@ =~= all_inputs);
        let ghost all_outputs = self@.closure_outputs(*closure);
        let mut outputs: Vec<(u64, bool)> = Vec::new();
        let mut j: usize = 0;
        while j < closure.outputs.len()
            invariant
                j <= closure.outputs@.len(),
                all_outputs == self@.closure_outputs(*closure),
                outputs@ == all_outputs.subrange(0, j as int),
            decreases closure.outputs@.len() - j,
        {
            let output = &closure.outputs[j];
            outputs.push((output.0.locator, self.register_type_is_defined(&output.1)));
            assert(outputs@ =~= all_outputs.subrange(0, j + 1));
            j = j + 1;
        }
        assert(outputs@ =~= all_outputs);
        check_registers(&inputs, &closure.instructions, &outputs)
    }

    /// Checks the registers of a function, and that its types name only
    /// declarations of the program.
    fn check_function_registers(&self, function: &Function) -> (r: Result<(), ProgramError>)
        ensures
            match r {
                Ok(()) => self@.function_registers_error(*function) is None,
                Err(e) => self@.function_registers_error(*function) == Some(e),
            },
    {
        let ghost all_inputs = self@.function_inputs(*function);
        let mut inputs: Vec<(u64, bool)> = Vec::new();
        let mut i: usize = 0;
        while i < function.inputs.len()
            invariant
                i <= function.inputs@.len(),
                all_inputs == self@.function_inputs(*function),
                inputs@ == all_inputs.subrange(0, i as int),
            decreases function.inputs@.len() - i,
        {
            let input = &function.inputs[i];
            inputs.push((input.0, self.value_type_is_defined(&input.1)));
            assert(inputs@ =~= all_inputs.subrange(0, i + 1));
            i = i + 1;
        }
        assert(inputs@ =~= all_inputs);
        let ghost all_outputs = self@.function_outputs(*function);
        let mut outputs: Vec<(u64, bool)> = Vec::new();
        let mut j: usize = 0;
        while j < function.outputs.len()
            invariant
                j <= function.outputs@.len(),
                all_outputs == self@.function_outputs(*function),
                outputs@ == all_outputs.subrange(0, j as int),
            decreases function.outputs@.len() - j,
        {
            let output = &function.outputs[j];
            outputs.push((output.0.locator, self.value_type_is_defined(&output.1)));
            assert(outputs@ =~= all_outputs.subrange(0, j + 1));
            j = j + 1;
        }
        assert(outputs@ =~= all_outputs);
        check_registers(&inputs, &function.instructions, &outputs)
    }

    /// Adds an import of another program.
    ///
    /// Fails where the imported program's name is already declared, is an
    /// opcode root or a keyword, or where that program is already imported.
    pub fn add_import(&mut self, import: Import) -> (r: Result<(), ProgramError>)
        requires
            old(self).wf(),
        ensures
            final(self).wf(),
            match r {
                Ok(()) => old(self)@.add_import_error(import) is None && final(self)@ == old(self)@.add_import(
                    import,
                ),
                Err(e) => old(self)@.add_import_error(import) == Some(e) && *final(self) == *old(self),
            },
    {
        self.check_name(import.name())?;
        let key = import.id().to_bytes_le();
        if self.imports.contains(&key) {
            return Err(ProgramError::ImportExists);
        }
        let ghost before = self@;
        if self.imports.insert(key, import) {
            return Err(ProgramError::AlreadyExists);
        }
        proof {
            law_add_import_keeps_valid(before, import);
        }
        Ok(())
    }

    /// Adds an interface.
    ///
    /// Fails where its name is already declared, is an opcode root or a
    /// keyword, where it has no members, or where a member's name is a keyword
    /// or its type names an interface the program does not declare.
    pub fn add_interface(&mut self, interface: Interface) -> (r: Result<(), ProgramError>)
        requires
            old(self).wf(),
        ensures
            final(self).wf(),
            match r {
                Ok(()) => old(self)@.add_interface_error(interface) is None && final(self)@ == old(
                    self,
                )@.add_interface(interface),
                Err(e) => old(self)@.add_interface_error(interface) == Some(e) && *final(self) == *old(self),
            },
    {
        self.check_name(&interface.name)?;
        if interface.members.len() == 0 {
            return Err(ProgramError::MissingMembers);
        }
        self.check_members(&interface.members)?;
        let ghost before = self@;
        let name = interface.name.to_key();
        if self.identifiers.insert(interface.name.to_key(), ProgramDefinition::Interface) {
            return Err(ProgramError::AlreadyExists);
        }
        if self.interfaces.insert(name, interface) {
            return Err(ProgramError::AlreadyExists);
        }
        proof {
            law_add_interface_keeps_valid(before, interface);
        }
        Ok(())
    }

    /// Adds a record type.
    ///
    /// Fails where the program already holds a record type (only one is
    /// allowed), where its name is already declared, is an opcode root or a
    /// keyword, or where an entry's name is a keyword or its type names an
    /// interface the program does not declare.
    pub fn add_record(&mut self, record: RecordType) -> (r: Result<(), ProgramError>)
        requires
            old(self).wf(),
        ensures
            final(self).wf(),
            match r {
                Ok(()) => old(self)@.add_record_error(record) is None && final(self)@ == old(self)@.add_record(
                    record,
                ),
                Err(e) => old(self)@.add_record_error(record) == Some(e) && *final(self) == *old(self),
            },
    {
        proof {
            self.records.lemma_wf();
        }
        if self.records.len() > 0 {
            return Err(ProgramError::TooManyRecords);
        }
        self.check_name(&record.name)?;
        self.check_entries(&record.entries)?;
        let ghost before = self@;
        let name = record.name.to_key();
        if self.identifiers.insert(record.name.to_key(), ProgramDefinition::Record) {
            return Err(ProgramError::AlreadyExists);
        }
        if self.records.insert(name, record) {
            return Err(ProgramError::AlreadyExists);
        }
        proof {
            law_add_record_keeps_valid(before, record);
        }
        Ok(())
    }

    /// Adds a closure.
    ///
    /// Fails where its name is already declared, is an opcode root or a
    /// keyword; where it has no inputs or more than `MAX_INPUTS`, no
    /// instructions, or more than `MAX_OUTPUTS` outputs; or, checked input by
    /// input, then instruction by instruction, then output by output: where an
    /// input or output type names an interface or record type that is not
    /// declared, an input or destination register is assigned already or is
    /// not the next one, or an operand or output register is not assigned
    /// before it.
    pub fn add_closure(&mut self, closure: Closure) -> (r: Result<(), ProgramError>)
        requires
            old(self).wf(),
        ensures
            final(self).wf(),
            match r {
                Ok(()) => old(self)@.add_closure_error(closure) is None && final(self)@ == old(
                    self,
                )@.add_closure(closure),
                Err(e) => old(self)@.add_closure_error(closure) == Some(e) && *final(self) == *old(self),
            },
    {
        self.check_name(&closure.name)?;
        check_body(closure.inputs.len(), closure.instructions.len(), closure.outputs.len())?;
        self.check_closure_registers(&closure)?;
        let ghost before = self@;
        let name = closure.name.to_key();
        if self.identifiers.insert(closure.name.to_key(), ProgramDefinition::Closure) {
            return Err(ProgramError::AlreadyExists);
        }
        if self.closures.insert(name, closure) {
            return Err(ProgramError::AlreadyExists);
        }
        proof {
            law_add_closure_keeps_valid(before, closure);
        }
        Ok(())
    }

    /// Adds a function.
    ///
    /// Fails where its name is already declared, is an opcode root or a
    /// keyword; where it has no inputs or more than `MAX_INPUTS`, no
    /// instructions, or more than `MAX_OUTPUTS` outputs; or, checked input by
    /// input, then instruction by instruction, then output by output: where an
    /// input or output type names an interface or record type that is not
    /// declared, an input or destination register is assigned already or is
    /// not the next one, or an operand or output register is not assigned
    /// before it.
    pub fn add_function(&mut self, function: Function) -> (r: Result<(), ProgramError>)
        requires
            old(self).wf(),
        ensures
            final(self).wf(),
            match r {
                Ok(()) => old(self)@.add_function_error(function) is None && final(self)@ == old(
                    self,
                )@.add_function(function),
                Err(e) => old(self)@.add_function_error(function) == Some(e) && *final(self) == *old(self),
            },
    {
        self.check_name(&function.name)?;
        check_body(function.inputs.len(), function.instructions.len(), function.outputs.len())?;
        self.check_function_registers(&function)?;
        let ghost before = self@;
        let name = function.name.to_key();
        if self.identifiers.insert(function.name.to_key(), ProgramDefinition::Function) {
            return Err(ProgramError::AlreadyExists);
        }
        if self.functions.insert(name, function) {
            return Err(ProgramError::AlreadyExists);
        }
        proof {
            law_add_function_keeps_valid(before, function);
        }
        Ok(())
    }

    /// Returns the name of this type.
    pub fn name_of_type() -> (r: &'static str)
        ensures
            r@ == "program"@,
    {
        "program"
    }
}

/// Checks the numbers of inputs, instructions and outputs of a closure or function body.
fn check_body(num_inputs: usize, num_instructions: usize, num_outputs: usize) -> (r: Result<(), ProgramError>)
    ensures
        match r {
            Ok(()) => body_error(num_inputs as nat, num_instructions as nat, num_outputs as nat) is None,
            Err(e) => body_error(num_inputs as nat, num_instructions as nat, num_outputs as nat) == Some(e),
        },
{
    if num_inputs == 0 {
        return Err(ProgramError::MissingInputs);
    }
    if num_inputs > MAX_INPUTS {
        return Err(ProgramError::TooManyInputs);
    }
    if num_instructions == 0 {
        return Err(ProgramError::MissingInstructions);
    }
    if num_outputs > MAX_OUTPUTS {
        return Err(ProgramError::TooManyOutputs);
    }
    Ok(())
}

/// A member that meets the rules keeps meeting them as more interfaces are declared.
pub proof fn lemma_member_error_grows(m: ProgramModel, n: ProgramModel, name: Identifier, t: PlaintextType)
    requires
        m.interfaces.dom().subset_of(n.interfaces.dom()),
        m.member_error(name, t) is None,
    ensures
        n.member_error(name, t) is None,
{
    if let PlaintextType::Interface(id) = t {
        assert(m.interfaces.dom().contains(id@));
    }
}

/// The registers and types of a closure that meet the rules keep meeting
/// them as more interfaces and record types are declared.
pub proof fn lemma_closure_registers_grow(m: ProgramModel, n: ProgramModel, c: Closure)
    requires
        m.interfaces.dom().subset_of(n.interfaces.dom()),
        m.records.dom().subset_of(n.records.dom()),
        m.closure_registers_error(c) is None,
    ensures
        n.closure_registers_error(c) is None,
{
    lemma_registers_error_none(m.closure_inputs(c), c.instructions@, m.closure_outputs(c));
    assert forall|i: int| 0 <= i < c.inputs@.len() implies #[trigger] n.closure_inputs(c)[i] == m.closure_inputs(c)[i] by {
        assert(m.closure_inputs(c)[i].1);
        match c.inputs@[i].1 {
            RegisterType::Plaintext(PlaintextType::Interface(name)) => assert(m.interfaces.dom().contains(name@)),
            RegisterType::Record(name) => assert(m.records.dom().contains(name@)),
            _ => {},
        }
    }
    assert forall|i: int| 0 <= i < c.outputs@.len() implies #[trigger] n.closure_outputs(c)[i] == m.closure_outputs(c)[i] by {
        assert(m.closure_outputs(c)[i].1);
        match c.outputs@[i].1 {
            RegisterType::Plaintext(PlaintextType::Interface(name)) => assert(m.interfaces.dom().contains(name@)),
            RegisterType::Record(name) => assert(m.records.dom().contains(name@)),
            _ => {},
        }
    }
    assert(n.closure_inputs(c) =~= m.closure_inputs(c));
    assert(n.closure_outputs(c) =~= m.closure_outputs(c));
}

/// The registers and types of a function that meet the rules keep meeting
/// them as more interfaces and record types are declared.
pub proof fn lemma_function_registers_grow(m: ProgramModel, n: ProgramModel, f: Function)
    requires
        m.interfaces.dom().subset_of(n.interfaces.dom()),
        m.records.dom().subset_of(n.records.dom()),
        m.function_registers_error(f) is None,
    ensures
        n.function_registers_error(f) is None,
{
    lemma_registers_error_none(m.function_inputs(f), f.instructions@, m.function_outputs(f));
    assert forall|i: int| 0 <= i < f.inputs@.len() implies #[trigger] n.function_inputs(f)[i] == m.function_inputs(f)[i] by {
        assert(m.function_inputs(f)[i].1);
        match f.inputs@[i].1 {
            ValueType::Constant(PlaintextType::Interface(name)) => assert(m.interfaces.dom().contains(name@)),
            ValueType::Public(PlaintextType::Interface(name)) => assert(m.interfaces.dom().contains(name@)),
            ValueType::Private(PlaintextType::Interface(name)) => assert(m.interfaces.dom().contains(name@)),
            ValueType::Record(name) => assert(m.records.dom().contains(name@)),
            _ => {},
        }
    }
    assert forall|i: int| 0 <= i < f.outputs@.len() implies #[trigger] n.function_outputs(f)[i] == m.function_outputs(f)[i] by {
        assert(m.function_outputs(f)[i].1);
        match f.outputs@[i].1 {
            ValueType::Constant(PlaintextType::Interface(name)) => assert(m.interfaces.dom().contains(name@)),
            ValueType::Public(PlaintextType::Interface(name)) => assert(m.interfaces.dom().contains(name@)),
            ValueType::Private(PlaintextType::Interface(name)) => assert(m.interfaces.dom().contains(name@)),
            ValueType::Record(name) => assert(m.records.dom().contains(name@)),
            _ => {},
        }
    }
    assert(n.function_inputs(f) =~= m.function_inputs(f));
    assert(n.function_outputs(f) =~= m.function_outputs(f));
}

/// The declarations a valid program holds keep meeting their rules in a
/// model with the same declarations and more interfaces and record types.
proof fn lemma_declarations_stay_valid(m: ProgramModel, n: ProgramModel)
    requires
        m.valid(),
        m.interfaces.dom().subset_of(n.interfaces.dom()),
        m.records.dom().subset_of(n.records.dom()),
    ensures
        forall|k: Seq<u8>| #[trigger] m.interfaces.dom().contains(k) ==> forall|j: int|
            0 <= j < m.interfaces[k].members@.len() ==> #[trigger] n.member_error(
                m.interfaces[k].members@[j].0,
                m.interfaces[k].members@[j].1,
            ) is None,
        forall|k: Seq<u8>| #[trigger] m.records.dom().contains(k) ==> forall|j: int|
            0 <= j < m.records[k].entries@.len() ==> #[trigger] n.member_error(
                m.records[k].entries@[j].0,
                m.records[k].entries@[j].1.plaintext_type(),
            ) is None,
        forall|k: Seq<u8>| #[trigger] m.closures.dom().contains(k) ==> n.closure_registers_error(m.closures[k]) is None,
        forall|k: Seq<u8>| #[trigger] m.functions.dom().contains(k) ==> n.function_registers_error(m.functions[k]) is None,
{
    assert forall|k: Seq<u8>, j: int| #[trigger] m.interfaces.dom().contains(k) && 0 <= j < m.interfaces[k].members@.len()
        implies #[trigger] n.member_error(m.interfaces[k].members@[j].0, m.interfaces[k].members@[j].1) is None by {
        assert(m.member_error(m.interfaces[k].members@[j].0, m.interfaces[k].members@[j].1) is None);
        lemma_member_error_grows(m, n, m.interfaces[k].members@[j].0, m.interfaces[k].members@[j].1);
    }
    assert forall|k: Seq<u8>, j: int| #[trigger] m.records.dom().contains(k) && 0 <= j < m.records[k].entries@.len()
        implies #[trigger] n.member_error(m.records[k].entries@[j].0, m.records[k].entries@[j].1.plaintext_type()) is None by {
        assert(m.member_error(m.records[k].entries@[j].0, m.records[k].entries@[j].1.plaintext_type()) is None);
        lemma_member_error_grows(m, n, m.records[k].entries@[j].0, m.records[k].entries@[j].1.plaintext_type());
    }
    assert forall|k: Seq<u8>| #[trigger] m.closures.dom().contains(k) implies n.closure_registers_error(m.closures[k]) is None by {
        lemma_closure_registers_grow(m, n, m.closures[k]);
    }
    assert forall|k: Seq<u8>| #[trigger] m.functions.dom().contains(k) implies n.function_registers_error(m.functions[k]) is None by {
        lemma_function_registers_grow(m, n, m.functions[k]);
    }
}

/// The order of interfaces keeps its rule in a model that extends it.
proof fn lemma_order_stays(m: ProgramModel, n: ProgramModel)
    requires
        m.valid(),
        m.interface_order.len() <= n.interface_order.len(),
        forall|q: int| 0 <= q < m.interface_order.len() ==> #[trigger] n.interface_order[q] == m.interface_order[q],
        forall|k: Seq<u8>| #[trigger] m.interfaces.dom().contains(k) ==> n.interfaces.dom().contains(k) && n.interfaces[k]
            == m.interfaces[k],
    ensures
        forall|p: int, j: int|
            0 <= p < m.interface_order.len() && 0 <= j < n.interfaces[n.interface_order[p]].members@.len()
                ==> #[trigger] n.refers_earlier(p, n.interfaces[n.interface_order[p]].members@[j].1),
{
    assert forall|p: int, j: int|
        0 <= p < m.interface_order.len() && 0 <= j < n.interfaces[n.interface_order[p]].members@.len()
            implies #[trigger] n.refers_earlier(p, n.interfaces[n.interface_order[p]].members@[j].1) by {
        let k = m.interface_order[p];
        assert(m.interface_order.contains(k));
        assert(m.interfaces.dom().contains(k));
        assert(m.refers_earlier(p, m.interfaces[m.interface_order[p]].members@[j].1));
        if let PlaintextType::Interface(name) = m.interfaces[k].members@[j].1 {
            let q = choose|q: int| 0 <= q < p && #[trigger] m.interface_order[q] == name@;
            assert(n.interface_order[q] == name@);
        }
    }
}

/// The empty program is valid.
pub proof fn law_empty_program_valid(id: ProgramIdView)
    ensures
        ProgramModel::empty(id).valid(),
{
}

/// Adding an import that meets the rules keeps every rule of a program.
pub proof fn law_add_import_keeps_valid(m: ProgramModel, import: Import)
    requires
        m.valid(),
        m.add_import_error(import) is None,
    ensures
        m.add_import(import).valid(),
{
    let n = m.add_import(import);
    lemma_declarations_stay_valid(m, n);
    lemma_order_stays(m, n);
    let key = encode_program_id(import.program_id@);
    assert forall|k: Seq<u8>| #[trigger] n.imports.dom().contains(k) implies k == encode_program_id(n.imports[k].program_id@) by {
        if k != key {
            assert(m.imports.dom().contains(k));
        }
    }
    assert(n.identifiers == m.identifiers);
    assert(n.interfaces == m.interfaces);
    assert(n.records == m.records);
    assert(n.closures == m.closures);
    assert(n.functions == m.functions);
}

/// Adding an interface that meets the rules keeps every rule of a program.
pub proof fn law_add_interface_keeps_valid(m: ProgramModel, interface: Interface)
    requires
        m.valid(),
        m.add_interface_error(interface) is None,
    ensures
        m.add_interface(interface).valid(),
{
    let n = m.add_interface(interface);
    lemma_members_error(m, interface.members@);
    lemma_declarations_stay_valid(m, n);
    lemma_order_stays(m, n);
    let last = m.interface_order.len() as int;
    assert(!m.interface_order.contains(interface.name@));
    assert forall|j: int| 0 <= j < n.interfaces[n.interface_order[last]].members@.len()
        implies #[trigger] n.refers_earlier(last, n.interfaces[n.interface_order[last]].members@[j].1) by {
        assert(n.interface_order[last] == interface.name@);
        assert(m.member_error(interface.members@[j].0, interface.members@[j].1) is None);
        if let PlaintextType::Interface(name) = interface.members@[j].1 {
            assert(m.interface_order.contains(name@));
            let q = choose|q: int| 0 <= q < m.interface_order.len() && m.interface_order[q] == name@;
            assert(n.interface_order[q] == name@);
        }
    }
    assert forall|p: int, j: int|
        0 <= p < n.interface_order.len() && 0 <= j < n.interfaces[n.interface_order[p]].members@.len()
            implies #[trigger] n.refers_earlier(p, n.interfaces[n.interface_order[p]].members@[j].1) by {
        if p == last {
            assert(n.refers_earlier(last, n.interfaces[n.interface_order[last]].members@[j].1));
        }
    }
    assert forall|k: Seq<u8>| #[trigger] n.interfaces.dom().contains(k) <==> n.interface_order.contains(k) by {
        if k == interface.name@ {
            assert(n.interface_order[last] == k);
        } else if n.interface_order.contains(k) {
            let q = choose|q: int| 0 <= q < n.interface_order.len() && n.interface_order[q] == k;
            assert(q < last);
            assert(m.interface_order.contains(k));
        } else if m.interface_order.contains(k) {
            let q = choose|q: int| 0 <= q < m.interface_order.len() && m.interface_order[q] == k;
            assert(n.interface_order[q] == k);
        }
    }
    assert(n.interface_order.no_duplicates()) by {
        assert forall|a: int, b: int| 0 <= a < n.interface_order.len() && 0 <= b < n.interface_order.len() && a != b
            implies n.interface_order[a] != n.interface_order[b] by {
            if a == last {
                assert(m.interface_order.contains(n.interface_order[b]));
            } else if b == last {
                assert(m.interface_order.contains(n.interface_order[a]));
            }
        }
    }
    assert forall|j: int| 0 <= j < interface.members@.len() implies #[trigger] n.member_error(
        interface.members@[j].0,
        interface.members@[j].1,
    ) is None by {
        lemma_member_error_grows(m, n, interface.members@[j].0, interface.members@[j].1);
    }
    assert(n.records == m.records);
}

/// Adding a record type that meets the rules keeps every rule of a program.
pub proof fn law_add_record_keeps_valid(m: ProgramModel, record: RecordType)
    requires
        m.valid(),
        m.add_record_error(record) is None,
    ensures
        m.add_record(record).valid(),
{
    let n = m.add_record(record);
    lemma_entries_error(m, record.entries@);
    lemma_declarations_stay_valid(m, n);
    lemma_order_stays(m, n);
    assert(n.records.dom() == m.records.dom().insert(record.name@));
    assert(!m.records.dom().contains(record.name@));
    assert(n.records.dom().len() == m.records.dom().len() + 1);
    assert(n.records.len() <= 1);
    assert forall|k: Seq<u8>| #[trigger] n.records.dom().contains(k) implies {
        &&& n.records[k].name@ == k
        &&& forall|j: int|
            0 <= j < n.records[k].entries@.len() ==> #[trigger] n.member_error(
                n.records[k].entries@[j].0,
                n.records[k].entries@[j].1.plaintext_type(),
            ) is None
    } by {
        if k == record.name@ {
            assert forall|j: int| 0 <= j < record.entries@.len() implies #[trigger] n.member_error(
                record.entries@[j].0,
                record.entries@[j].1.plaintext_type(),
            ) is None by {
                lemma_member_error_grows(m, n, record.entries@[j].0, record.entries@[j].1.plaintext_type());
            }
        }
    }
}

/// Adding a closure that meets the rules keeps every rule of a program.
pub proof fn law_add_closure_keeps_valid(m: ProgramModel, closure: Closure)
    requires
        m.valid(),
        m.add_closure_error(closure) is None,
    ensures
        m.add_closure(closure).valid(),
{
    lemma_declarations_stay_valid(m, m.add_closure(closure));
    lemma_order_stays(m, m.add_closure(closure));
}

/// Adding a function that meets the rules keeps every rule of a program.
pub proof fn law_add_function_keeps_valid(m: ProgramModel, function: Function)
    requires
        m.valid(),
        m.add_function_error(function) is None,
    ensures
        m.add_function(function).valid(),
{
    lemma_declarations_stay_valid(m, m.add_function(function));
    lemma_order_stays(m, m.add_function(function));
}

/// What was added is found again under its name, and looking it up succeeds.
pub proof fn law_added_is_found(
    m: ProgramModel,
    import: Import,
    interface: Interface,
    record: RecordType,
    closure: Closure,
    function: Function,
)
    requires
        m.valid(),
    ensures
        m.add_import_error(import) is None ==> m.add_import(import).imports[encode_program_id(import.program_id@)]
            == import,
        m.add_interface_error(interface) is None ==> {
            &&& m.add_interface(interface).get_interface_error(interface.name@) is None
            &&& m.add_interface(interface).interfaces[interface.name@] == interface
        },
        m.add_record_error(record) is None ==> {
            &&& m.add_record(record).get_record_error(record.name@) is None
            &&& m.add_record(record).records[record.name@] == record
        },
        m.add_closure_error(closure) is None ==> {
            &&& m.add_closure(closure).get_closure_error(closure.name@) is None
            &&& m.add_closure(closure).closures[closure.name@] == closure
        },
        m.add_function_error(function) is None ==> {
            &&& m.add_function(function).get_function_error(function.name@) is None
            &&& m.add_function(function).functions[function.name@] == function
        },
{
}

/// In a valid program a name stands for at most one declaration, and no
/// declared name is a reserved keyword or an opcode root.
pub proof fn law_names_unique_and_unreserved(m: ProgramModel, k: Seq<u8>)
    requires
        m.valid(),
    ensures
        m.interfaces.dom().contains(k) ==> !m.records.dom().contains(k) && !m.closures.dom().contains(k)
            && !m.functions.dom().contains(k),
        m.records.dom().contains(k) ==> !m.closures.dom().contains(k) && !m.functions.dom().contains(k),
        m.closures.dom().contains(k) ==> !m.functions.dom().contains(k),
        m.identifiers.dom().contains(k) ==> !is_keyword(k) && !is_opcode_name(k),
{
    if m.identifiers.dom().contains(k) {
        assert(m.identifiers.dom().contains(k));
    }
    if m.interfaces.dom().contains(k) {
        assert(m.identifiers[k] == ProgramDefinition::Interface);
    }
    if m.records.dom().contains(k) {
        assert(m.identifiers[k] == ProgramDefinition::Record);
    }
    if m.closures.dom().contains(k) {
        assert(m.identifiers[k] == ProgramDefinition::Closure);
    }
}

/// In a valid program, looking a declaration up succeeds exactly where one of
/// that kind is declared under the name.
pub proof fn law_lookup_succeeds_iff_declared(m: ProgramModel, k: Seq<u8>)
    requires
        m.valid(),
    ensures
        m.get_interface_error(k) is None <==> m.interfaces.dom().contains(k),
        m.get_record_error(k) is None <==> m.records.dom().contains(k),
        m.get_closure_error(k) is None <==> m.closures.dom().contains(k),
        m.get_function_error(k) is None <==> m.functions.dom().contains(k),
{
    if m.interfaces.dom().contains(k) {
        assert(m.interfaces[k].members@.len() > 0);
    }
    if m.closures.dom().contains(k) {
        assert(closure_error(m.closures[k]) is None);
    }
    if m.functions.dom().contains(k) {
        assert(function_error(m.functions[k]) is None);
    }
}

/// No interface refers to itself, directly or through other interfaces:
/// each names only interfaces added before it.
pub proof fn law_interfaces_acyclic(m: ProgramModel, p: int, j: int)
    requires
        m.valid(),
        0 <= p < m.interface_order.len(),
        0 <= j < m.interfaces[m.interface_order[p]].members@.len(),
    ensures
        m.interfaces[m.interface_order[p]].members@[j].1 matches PlaintextType::Interface(name) ==> {
            &&& exists|q: int| 0 <= q < p && #[trigger] m.interface_order[q] == name@
            &&& name@ != m.interface_order[p]
        },
{
    assert(m.refers_earlier(p, m.interfaces[m.interface_order[p]].members@[j].1));
}

/// A name already declared in a program cannot be declared again.
pub proof fn law_declared_name_refused(m: ProgramModel, interface: Interface, closure: Closure, function: Function)
    ensures
        m.identifiers.dom().contains(interface.name@) ==> m.add_interface_error(interface) == Some(
            ProgramError::NameInUse,
        ),
        m.identifiers.dom().contains(closure.name@) ==> m.add_closure_error(closure) == Some(
            ProgramError::NameInUse,
        ),
        m.identifiers.dom().contains(function.name@) ==> m.add_function_error(function) == Some(
            ProgramError::NameInUse,
        ),
{
}

/// A declared interface only names interfaces that the program declares.
pub proof fn law_interfaces_closed(m: ProgramModel, k: Seq<u8>, j: int)
    requires
        m.valid(),
        m.interfaces.dom().contains(k),
        0 <= j < m.interfaces[k].members@.len(),
    ensures
        m.interfaces[k].members@[j].1 matches PlaintextType::Interface(name) ==> m.interfaces.dom().contains(
            name@,
        ),
{
    assert(m.member_error(m.interfaces[k].members@[j].0, m.interfaces[k].members@[j].1) is None);
}

/// Every closure and function of a program has its registers in order (each
/// input and destination takes the next register, and each register read is
/// assigned before), and its input and output types name only interfaces and
/// record types that the program declares.
pub proof fn law_bodies_well_formed(m: ProgramModel, k: Seq<u8>)
    requires
        m.valid(),
    ensures
        m.closures.dom().contains(k) ==> {
            let c = m.closures[k];
            &&& registers_in_order(
                c.inputs@.map_values(|input: (u64, RegisterType)| input.0),
                c.instructions@,
                c.outputs@.map_values(|output: (Register, RegisterType)| output.0.locator),
            )
            &&& forall|i: int|
                0 <= i < c.inputs@.len() ==> #[trigger] register_type_defined(
                    m.interfaces.dom(),
                    m.records.dom(),
                    c.inputs@[i].1,
                )
            &&& forall|j: int|
                0 <= j < c.outputs@.len() ==> #[trigger] register_type_defined(
                    m.interfaces.dom(),
                    m.records.dom(),
                    c.outputs@[j].1,
                )
        },
        m.functions.dom().contains(k) ==> {
            let f = m.functions[k];
            &&& registers_in_order(
                f.inputs@.map_values(|input: (u64, ValueType)| input.0),
                f.instructions@,
                f.outputs@.map_values(|output: (Register, ValueType)| output.0.locator),
            )
            &&& forall|i: int|
                0 <= i < f.inputs@.len() ==> #[trigger] value_type_defined(
                    m.interfaces.dom(),
                    m.records.dom(),
                    f.inputs@[i].1,
                )
            &&& forall|j: int|
                0 <= j < f.outputs@.len() ==> #[trigger] value_type_defined(
                    m.interfaces.dom(),
                    m.records.dom(),
                    f.outputs@[j].1,
                )
        },
{
    if m.closures.dom().contains(k) {
        let c = m.closures[k];
        lemma_registers_error_none(m.closure_inputs(c), c.instructions@, m.closure_outputs(c));
        assert(locators(m.closure_inputs(c)) =~= c.inputs@.map_values(|input: (u64, RegisterType)| input.0));
        assert(locators(m.closure_outputs(c)) =~= c.outputs@.map_values(
            |output: (Register, RegisterType)| output.0.locator,
        ));
        assert forall|i: int| 0 <= i < c.inputs@.len() implies #[trigger] register_type_defined(
            m.interfaces.dom(),
            m.records.dom(),
            c.inputs@[i].1,
        ) by {
            assert(m.closure_inputs(c)[i].1);
        }
        assert forall|j: int| 0 <= j < c.outputs@.len() implies #[trigger] register_type_defined(
            m.interfaces.dom(),
            m.records.dom(),
            c.outputs@[j].1,
        ) by {
            assert(m.closure_outputs(c)[j].1);
        }
    }
    if m.functions.dom().contains(k) {
        let f = m.functions[k];
        lemma_registers_error_none(m.function_inputs(f), f.instructions@, m.function_outputs(f));
        assert(locators(m.function_inputs(f)) =~= f.inputs@.map_values(|input: (u64, ValueType)| input.0));
        assert(locators(m.function_outputs(f)) =~= f.outputs@.map_values(
            |output: (Register, ValueType)| output.0.locator,
        ));
        assert forall|i: int| 0 <= i < f.inputs@.len() implies #[trigger] value_type_defined(
            m.interfaces.dom(),
            m.records.dom(),
            f.inputs@[i].1,
        ) by {
            assert(m.function_inputs(f)[i].1);
        }
        assert forall|j: int| 0 <= j < f.outputs@.len() implies #[trigger] value_type_defined(
            m.interfaces.dom(),
            m.records.dom(),
            f.outputs@[j].1,
        ) by {
            assert(m.function_outputs(f)[j].1);
        }
    }
}

/// A declaration to add to a program.
pub enum Declaration {
    Import(Import),
    Interface(Interface),
    Record(RecordType),
    Closure(Closure),
    Function(Function),
}

impl ProgramModel {
    /// What stands against adding the declaration.
    pub open spec fn declaration_error(self, d: Declaration) -> Option<ProgramError> {
        match d {
            Declaration::Import(i) => self.add_import_error(i),
            Declaration::Interface(i) => self.add_interface_error(i),
            Declaration::Record(r) => self.add_record_error(r),
            Declaration::Closure(c) => self.add_closure_error(c),
            Declaration::Function(f) => self.add_function_error(f),
        }
    }

    /// The program once the declaration is added.
    pub open spec fn declare(self, d: Declaration) -> ProgramModel {
        match d {
            Declaration::Import(i) => self.add_import(i),
            Declaration::Interface(i) => self.add_interface(i),
            Declaration::Record(r) => self.add_record(r),
            Declaration::Closure(c) => self.add_closure(c),
            Declaration::Function(f) => self.add_function(f),
        }
    }

    /// The program after each declaration is tried in turn, as the `add_*`
    /// methods do: one that meets the rules is added, one that does not
    /// leaves the program as it is.
    pub open spec fn declare_all(self, ds: Seq<Declaration>) -> ProgramModel
        decreases ds.len(),
    {
        if ds.len() == 0 {
            self
        } else {
            let m = self.declare_all(ds.drop_last());
            if m.declaration_error(ds.last()) is None {
                m.declare(ds.last())
            } else {
                m
            }
        }
    }

    /// The functions that were added while the declarations were tried, in order.
    pub open spec fn accepted_functions(self, ds: Seq<Declaration>) -> Seq<Function>
        decreases ds.len(),
    {
        if ds.len() == 0 {
            Seq::empty()
        } else {
            let m = self.declare_all(ds.drop_last());
            self.accepted_functions(ds.drop_last()) + match ds.last() {
                Declaration::Function(f) => if m.add_function_error(f) is None {
                    seq![f]
                } else {
                    Seq::empty()
                },
                _ => Seq::empty(),
            }
        }
    }
}

/// Trying declarations in turn keeps every rule of a program.
pub proof fn law_declare_all_keeps_valid(m: ProgramModel, ds: Seq<Declaration>)
    requires
        m.valid(),
    ensures
        m.declare_all(ds).valid(),
    decreases ds.len(),
{
    if ds.len() > 0 {
        law_declare_all_keeps_valid(m, ds.drop_last());
        let p = m.declare_all(ds.drop_last());
        if p.declaration_error(ds.last()) is None {
            match ds.last() {
                Declaration::Import(i) => law_add_import_keeps_valid(p, i),
                Declaration::Interface(i) => law_add_interface_keeps_valid(p, i),
                Declaration::Record(r) => law_add_record_keeps_valid(p, r),
                Declaration::Closure(c) => law_add_closure_keeps_valid(p, c),
                Declaration::Function(f) => law_add_function_keeps_valid(p, f),
            }
        }
    }
}

/// After declarations are tried in turn, the program's functions are those
/// it had, then the functions that were added, in the order they were
/// added; and each added function is found under its name.
pub proof fn law_functions_in_order(m: ProgramModel, ds: Seq<Declaration>)
    requires
        m.valid(),
    ensures
        m.declare_all(ds).function_order == m.function_order + m.accepted_functions(ds),
        forall|j: int|
            0 <= j < m.accepted_functions(ds).len() ==> m.declare_all(ds).functions.dom().contains(
                #[trigger] m.accepted_functions(ds)[j].name@,
            ) && m.declare_all(ds).functions[m.accepted_functions(ds)[j].name@] == m.accepted_functions(ds)[j],
    decreases ds.len(),
{
    if ds.len() > 0 {
        let front = ds.drop_last();
        law_functions_in_order(m, front);
        law_declare_all_keeps_valid(m, front);
        let p = m.declare_all(front);
        let before = m.accepted_functions(front);
        let after = m.accepted_functions(ds);
        if let Declaration::Function(f) = ds.last() {
            if p.add_function_error(f) is None {
                assert(after =~= before.push(f));
                assert forall|j: int| 0 <= j < after.len() implies m.declare_all(ds).functions.dom().contains(
                    #[trigger] after[j].name@,
                ) && m.declare_all(ds).functions[after[j].name@] == after[j] by {
                    if j < before.len() {
                        assert(after[j] == before[j]);
                        assert(p.functions.dom().contains(before[j].name@));
                        assert(p.identifiers.dom().contains(before[j].name@));
                    }
                }
            } else {
                assert(after =~= before);
            }
        } else {
            assert(after =~= before);
        }
    }
}

/// A closure or function is added only with at least one input and at most
/// `MAX_INPUTS`, at least one instruction, and at most `MAX_OUTPUTS`
/// outputs; so every closure and function a program holds has such a body,
/// and looking one up succeeds only for such a body.
pub proof fn law_bodies_within_limits(m: ProgramModel, closure: Closure, function: Function, k: Seq<u8>)
    ensures
        m.add_closure_error(closure) is None ==> {
            &&& 0 < closure.inputs@.len() <= MAX_INPUTS
            &&& closure.instructions@.len() > 0
            &&& closure.outputs@.len() <= MAX_OUTPUTS
        },
        m.add_function_error(function) is None ==> {
            &&& 0 < function.inputs@.len() <= MAX_INPUTS
            &&& function.instructions@.len() > 0
            &&& function.outputs@.len() <= MAX_OUTPUTS
        },
        m.get_closure_error(k) is None ==> {
            &&& 0 < m.closures[k].inputs@.len() <= MAX_INPUTS
            &&& m.closures[k].instructions@.len() > 0
            &&& m.closures[k].outputs@.len() <= MAX_OUTPUTS
        },
        m.get_function_error(k) is None ==> {
            &&& 0 < m.functions[k].inputs@.len() <= MAX_INPUTS
            &&& m.functions[k].instructions@.len() > 0
            &&& m.functions[k].outputs@.len() <= MAX_OUTPUTS
        },
        m.valid() && m.closures.dom().contains(k) ==> {
            &&& 0 < m.closures[k].inputs@.len() <= MAX_INPUTS
            &&& m.closures[k].instructions@.len() > 0
            &&& m.closures[k].outputs@.len() <= MAX_OUTPUTS
        },
        m.valid() && m.functions.dom().contains(k) ==> {
            &&& 0 < m.functions[k].inputs@.len() <= MAX_INPUTS
            &&& m.functions[k].instructions@.len() > 0
            &&& m.functions[k].outputs@.len() <= MAX_OUTPUTS
        },
{
}

/// What an accepted addition meets: a new name that is neither a keyword
/// nor an opcode root; an interface with members; a record type only where
/// the program holds none; an import of a program not imported yet.
pub proof fn law_accepted_additions(
    m: ProgramModel,
    import: Import,
    interface: Interface,
    record: RecordType,
    closure: Closure,
    function: Function,
)
    ensures
        m.add_import_error(import) is None ==> {
            &&& !m.identifiers.dom().contains(import.program_id@.0)
            &&& !is_keyword(import.program_id@.0)
            &&& !is_opcode_name(import.program_id@.0)
            &&& !m.imports.dom().contains(encode_program_id(import.program_id@))
        },
        m.add_interface_error(interface) is None ==> {
            &&& !m.identifiers.dom().contains(interface.name@)
            &&& !is_keyword(interface.name@)
            &&& !is_opcode_name(interface.name@)
            &&& interface.members@.len() > 0
        },
        m.add_record_error(record) is None ==> {
            &&& !m.identifiers.dom().contains(record.name@)
            &&& !is_keyword(record.name@)
            &&& !is_opcode_name(record.name@)
            &&& m.records.len() == 0
        },
        m.add_closure_error(closure) is None ==> {
            &&& !m.identifiers.dom().contains(closure.name@)
            &&& !is_keyword(closure.name@)
            &&& !is_opcode_name(closure.name@)
        },
        m.add_function_error(function) is None ==> {
            &&& !m.identifiers.dom().contains(function.name@)
            &&& !is_keyword(function.name@)
            &&& !is_opcode_name(function.name@)
        },
{
}

} // verus!
