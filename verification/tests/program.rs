use snarkvm_program::definitions::{
    Closure, EntryType, Function, Import, Instruction, Interface, LiteralType, PlaintextType, RecordType, Register,
    RegisterType, ValueType,
};
use snarkvm_program::identifier::Identifier;
use snarkvm_program::program::{Program, ProgramError, MAX_INPUTS, MAX_OUTPUTS};
use snarkvm_program::program_id::ProgramID;
use snarkvm_program::request::{Request, Signature, Value};
use snarkvm_program::values::Plaintext;

fn id(name: &str) -> Identifier {
    Identifier::new(name.as_bytes().to_vec()).unwrap()
}

fn field() -> PlaintextType {
    PlaintextType::Literal(LiteralType::Field)
}

fn register(locator: u64) -> Register {
    Register { locator, members: vec![] }
}

fn new_program(name: &str) -> Program {
    Program::new(ProgramID::new(id(name), None))
}

/// `function compute: input r0 as field.public; input r1 as field.private;
/// add r0 r1 into r2; output r2 as field.private;`
fn compute_function() -> Function {
    Function::new(
        id("compute"),
        vec![(0, ValueType::Public(field())), (1, ValueType::Private(field()))],
        vec![Instruction { opcode: b"add".to_vec(), operands: vec![register(0), register(1)], destinations: vec![2] }],
        vec![(register(2), ValueType::Private(field()))],
    )
}

fn closure_with(name: &str, inputs: usize, instructions: usize, outputs: usize) -> Closure {
    Closure::new(
        id(name),
        (0..inputs as u64).map(|i| (i, RegisterType::Plaintext(field()))).collect(),
        (0..instructions as u64)
            .map(|k| Instruction {
                opcode: b"add".to_vec(),
                operands: vec![register(0), register(0)],
                destinations: vec![inputs as u64 + k],
            })
            .collect(),
        (0..outputs as u64).map(|i| (register(i), RegisterType::Plaintext(field()))).collect(),
    )
}

#[test]
fn test_program_interface() {
    // interface message: first as field; second as field;
    let interface = Interface::new(id("message"), vec![(id("first"), field()), (id("second"), field())]);

    let mut program = new_program("unknown");
    program.add_interface(interface.clone()).unwrap();
    assert!(program.contains_interface(&id("message")));
    assert_eq!(&interface, program.get_interface(&id("message")).unwrap());
}

#[test]
fn test_program_record() {
    // record foo: owner as address.private; balance as u64.private;
    //             first as field.private; second as field.public;
    let record = RecordType::new(
        id("foo"),
        vec![
            (id("owner"), EntryType::Private(PlaintextType::Literal(LiteralType::Address))),
            (id("balance"), EntryType::Private(PlaintextType::Literal(LiteralType::U64))),
            (id("first"), EntryType::Private(field())),
            (id("second"), EntryType::Public(field())),
        ],
    );

    let mut program = new_program("unknown");
    program.add_record(record.clone()).unwrap();
    assert!(program.contains_record(&id("foo")));
    assert_eq!(&record, program.get_record(&id("foo")).unwrap());
}

#[test]
fn test_program_function() {
    let function = compute_function();

    let mut program = new_program("unknown");
    program.add_function(function.clone()).unwrap();
    assert!(program.contains_function(&id("compute")));
    assert_eq!(&function, program.get_function(&id("compute")).unwrap());
}

#[test]
fn name_in_use_across_kinds() {
    let mut program = new_program("example");
    program.add_interface(Interface::new(id("compute"), vec![(id("a"), field())])).unwrap();
    assert_eq!(program.add_function(compute_function()), Err(ProgramError::NameInUse));
    assert!(!program.contains_function(&id("compute")));
    assert_eq!(program.add_closure(closure_with("compute", 1, 1, 1)), Err(ProgramError::NameInUse));
}

#[test]
fn reserved_names_are_refused() {
    let mut program = new_program("example");
    // `hash` is the root of `hash.bhp256`; `add` is an opcode.
    assert_eq!(program.add_closure(closure_with("hash", 1, 1, 1)), Err(ProgramError::ReservedOpcode));
    assert_eq!(program.add_closure(closure_with("add", 1, 1, 1)), Err(ProgramError::ReservedOpcode));
    assert_eq!(program.add_closure(closure_with("record", 1, 1, 1)), Err(ProgramError::ReservedKeyword));
    assert_eq!(
        program.add_interface(Interface::new(id("point"), vec![(id("field"), field())])),
        Err(ProgramError::ReservedKeyword)
    );
    // A name that only starts like an opcode is free.
    assert_eq!(program.add_closure(closure_with("hasher", 1, 1, 1)), Ok(()));
}

#[test]
fn interface_members_must_be_declared() {
    let mut program = new_program("example");
    let outer = Interface::new(id("outer"), vec![(id("inner"), PlaintextType::Interface(id("inner")))]);
    assert_eq!(program.add_interface(outer.clone()), Err(ProgramError::UndefinedInterface));
    assert_eq!(program.add_interface(Interface::new(id("empty"), vec![])), Err(ProgramError::MissingMembers));
    program.add_interface(Interface::new(id("inner"), vec![(id("x"), field())])).unwrap();
    assert_eq!(program.add_interface(outer), Ok(()));
    assert_eq!(program.get_interface(&id("missing")), Err(ProgramError::NotDefined));
}

#[test]
fn record_entries_must_be_declared() {
    let mut program = new_program("example");
    let record = RecordType::new(id("token"), vec![(id("data"), EntryType::Public(PlaintextType::Interface(id("point"))))]);
    assert_eq!(program.add_record(record), Err(ProgramError::UndefinedInterface));
    assert_eq!(program.get_record(&id("token")), Err(ProgramError::NotDefined));
}

#[test]
fn at_most_one_record_type() {
    let mut program = new_program("example");
    program.add_record(RecordType::new(id("first"), vec![])).unwrap();
    assert_eq!(program.add_record(RecordType::new(id("second"), vec![])), Err(ProgramError::TooManyRecords));
    assert!(!program.contains_record(&id("second")));
    assert!(program.contains_record(&id("first")));
}

#[test]
fn closure_body_limits() {
    let mut program = new_program("example");
    assert_eq!(program.add_closure(closure_with("a", 0, 1, 1)), Err(ProgramError::MissingInputs));
    assert_eq!(program.add_closure(closure_with("a", MAX_INPUTS + 1, 1, 1)), Err(ProgramError::TooManyInputs));
    assert_eq!(program.add_closure(closure_with("a", 1, 0, 1)), Err(ProgramError::MissingInstructions));
    assert_eq!(program.add_closure(closure_with("a", 1, 1, MAX_OUTPUTS + 1)), Err(ProgramError::TooManyOutputs));
    assert_eq!(program.add_closure(closure_with("a", MAX_INPUTS, 1, MAX_OUTPUTS)), Ok(()));
    assert_eq!(program.add_closure(closure_with("b", 2, 3, 0)), Ok(()));
    let names: Vec<_> = program.closures().iter().map(|c| c.name().clone()).collect();
    assert_eq!(names, vec![id("a"), id("b")]);
    assert_eq!(program.get_closure(&id("b")).unwrap().instructions.len(), 3);
    assert_eq!(program.get_closure(&id("c")), Err(ProgramError::NotDefined));
}

#[test]
fn imports_are_unique() {
    let mut program = new_program("example");
    let token = ProgramID::new(id("token"), Some(id("aleo")));
    program.add_import(Import::new(token.clone())).unwrap();
    assert_eq!(program.add_import(Import::new(token)), Err(ProgramError::ImportExists));
    // The import's name is not declared, so it may still be used.
    assert_eq!(program.add_import(Import::new(ProgramID::new(id("token"), None))), Ok(()));
    assert_eq!(program.add_import(Import::new(ProgramID::new(id("cast"), None))), Err(ProgramError::ReservedOpcode));
}

#[test]
fn program_id_and_functions() {
    let mut program = new_program("example");
    assert_eq!(program.id(), &ProgramID::new(id("example"), None));
    program.add_function(compute_function()).unwrap();
    assert_eq!(program.functions().len(), 1);
    assert_eq!(Program::name_of_type(), "program");
}

#[test]
fn sign_looks_up_the_function() {
    let mut program = new_program("token");
    program.add_function(compute_function()).unwrap();
    let sign = |program_id: &ProgramID, function_name: &Identifier, inputs: Vec<Value>, types: &Vec<(u64, ValueType)>| {
        assert_eq!(types.len(), 2);
        Some(Request {
            caller: snarkvm_program::field::Group { x: snarkvm_program::field::Field::zero(), y: snarkvm_program::field::Field::zero() },
            program_id: program_id.clone(),
            function_name: function_name.clone(),
            input_ids: vec![],
            inputs,
            signature: Signature { bytes: vec![] },
            tvk: snarkvm_program::field::Field::zero(),
        })
    };
    let inputs = vec![Value::Plaintext(Plaintext { bits: vec![true] })];
    let request = program.sign(&id("compute"), inputs.clone(), sign).unwrap();
    assert_eq!(request.function_name, id("compute"));
    assert_eq!(request.program_id, ProgramID::new(id("token"), None));
    assert_eq!(request.inputs, inputs);
    assert_eq!(program.sign(&id("missing"), vec![], sign).unwrap_err(), ProgramError::NotDefined);
    assert_eq!(program.sign(&id("compute"), vec![], |_: &ProgramID, _: &Identifier, _: Vec<Value>, _: &Vec<(u64, ValueType)>| None), Err(ProgramError::SigningFailed));
}

#[test]
fn interface_cannot_refer_to_itself() {
    let mut program = new_program("example");
    let looped = Interface::new(id("node"), vec![(id("next"), PlaintextType::Interface(id("node")))]);
    assert_eq!(program.add_interface(looped), Err(ProgramError::UndefinedInterface));
    assert!(!program.contains_interface(&id("node")));
}

#[test]
fn failed_add_changes_nothing() {
    let mut program = new_program("example");
    program.add_closure(closure_with("first", 1, 1, 1)).unwrap();
    assert_eq!(program.add_closure(closure_with("second", 0, 1, 1)), Err(ProgramError::MissingInputs));
    assert_eq!(program.closures().len(), 1);
    assert!(!program.contains_closure(&id("second")));
    assert!(program.contains_closure(&id("first")));
    assert_eq!(program.get_closure(&id("first")).unwrap().name(), &id("first"));
    assert_eq!(program.get_function(&id("first")), Err(ProgramError::NotDefined));
}

fn add(operands: Vec<u64>, destination: u64) -> Instruction {
    Instruction { opcode: b"add".to_vec(), operands: operands.into_iter().map(register).collect(), destinations: vec![destination] }
}

#[test]
fn registers_are_assigned_in_order() {
    let mut program = new_program("example");
    let input = |locator: u64| (locator, ValueType::Private(field()));
    let output = |locator: u64| (register(locator), ValueType::Private(field()));
    let body = |name: &str, inputs: Vec<(u64, ValueType)>, instructions: Vec<Instruction>, outputs: Vec<(Register, ValueType)>| {
        Function::new(id(name), inputs, instructions, outputs)
    };
    // An input that skips a register.
    assert_eq!(
        program.add_function(body("f", vec![input(0), input(2)], vec![add(vec![0, 2], 3)], vec![output(3)])),
        Err(ProgramError::RegisterOutOfOrder)
    );
    // A destination that is assigned already.
    assert_eq!(
        program.add_function(body("f", vec![input(0), input(1)], vec![add(vec![0, 1], 1)], vec![output(1)])),
        Err(ProgramError::RegisterReassigned)
    );
    // An operand that is not assigned before its instruction.
    assert_eq!(
        program.add_function(body("f", vec![input(0), input(1)], vec![add(vec![0, 2], 2)], vec![output(2)])),
        Err(ProgramError::UndefinedRegister)
    );
    // An output register that is never assigned.
    assert_eq!(
        program.add_function(body("f", vec![input(0), input(1)], vec![add(vec![0, 1], 2)], vec![output(3)])),
        Err(ProgramError::UndefinedRegister)
    );
    // An input type that names an undeclared interface, checked before its register.
    assert_eq!(
        program.add_function(body(
            "f",
            vec![(5, ValueType::Public(PlaintextType::Interface(id("message"))))],
            vec![add(vec![0], 1)],
            vec![output(1)]
        )),
        Err(ProgramError::UndefinedType)
    );
    // An output type that names an undeclared record type.
    assert_eq!(
        program.add_function(body("f", vec![input(0)], vec![add(vec![0, 0], 1)], vec![(register(1), ValueType::Record(id("token")))])),
        Err(ProgramError::UndefinedType)
    );
    assert!(!program.contains_function(&id("f")));
    // Once the record type is declared, the same function is accepted.
    program
        .add_record(RecordType::new(id("token"), vec![(id("owner"), EntryType::Private(PlaintextType::Literal(LiteralType::Address)))]))
        .unwrap();
    assert_eq!(
        program.add_function(body("f", vec![input(0)], vec![add(vec![0, 0], 1)], vec![(register(1), ValueType::Record(id("token")))])),
        Ok(())
    );
}

#[test]
fn closure_registers_are_checked() {
    let mut program = new_program("example");
    let closure = Closure::new(
        id("execute"),
        vec![(0, RegisterType::Plaintext(field())), (1, RegisterType::Plaintext(field()))],
        vec![add(vec![0, 1], 2), add(vec![0, 2], 3), add(vec![2, 3], 4)],
        vec![(register(4), RegisterType::Plaintext(field())), (register(3), RegisterType::Plaintext(field())), (register(2), RegisterType::Plaintext(field()))],
    );
    assert_eq!(program.add_closure(closure), Ok(()));
    let twice = Closure::new(
        id("twice"),
        vec![(0, RegisterType::Plaintext(field())), (0, RegisterType::Plaintext(field()))],
        vec![add(vec![0, 0], 1)],
        vec![(register(1), RegisterType::Plaintext(field()))],
    );
    assert_eq!(program.add_closure(twice), Err(ProgramError::RegisterReassigned));
    let record_input = Closure::new(
        id("spend"),
        vec![(0, RegisterType::Record(id("token")))],
        vec![add(vec![0, 0], 1)],
        vec![(register(1), RegisterType::Plaintext(field()))],
    );
    assert_eq!(program.add_closure(record_input), Err(ProgramError::UndefinedType));
}

#[test]
fn functions_keep_the_order_they_were_added_in() {
    let mut program = new_program("example");
    let function = |name: &str| {
        Function::new(
            id(name),
            vec![(0, ValueType::Public(field()))],
            vec![add(vec![0, 0], 1)],
            vec![(register(1), ValueType::Private(field()))],
        )
    };
    program.add_function(function("first")).unwrap();
    // A failed addition changes nothing.
    assert_eq!(program.add_function(function("first")), Err(ProgramError::NameInUse));
    program.add_interface(Interface::new(id("point"), vec![(id("x"), field())])).unwrap();
    program.add_function(function("second")).unwrap();
    let names: Vec<_> = program.functions().iter().map(|f| f.name().clone()).collect();
    assert_eq!(names, vec![id("first"), id("second")]);
    assert_eq!(program.get_function(&id("second")).unwrap(), &function("second"));
}
