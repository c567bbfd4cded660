//! The rules on the registers of a closure or function body: each input and
//! each destination takes the next register (`r0`, `r1`, ...), so no register
//! is assigned twice; every register read is assigned before it is read; and
//! every input and output type names declarations of the program.

use vstd::prelude::*;

use crate::definitions::{Instruction, PlaintextType, RegisterType, ValueType};
use crate::program::ProgramError;

verus! {

/// The first check of a list that fails, in order.
pub open spec fn first_failure(checks: Seq<Option<ProgramError>>) -> Option<ProgramError>
    decreases checks.len(),
{
    if checks.len() == 0 {
        None
    } else {
        match first_failure(checks.drop_last()) {
            Some(e) => Some(e),
            None => checks.last(),
        }
    }
}

/// One more check after a list: the first failure stays, or the new check decides.
pub proof fn lemma_first_failure_push(checks: Seq<Option<ProgramError>>, next: Option<ProgramError>)
    ensures
        first_failure(checks.push(next)) == match first_failure(checks) {
            Some(e) => Some(e),
            None => next,
        },
{
    assert(checks.push(next).drop_last() =~= checks);
}

/// Once a prefix of the checks fails, the whole list fails the same way.
pub proof fn lemma_first_failure_prefix(checks: Seq<Option<ProgramError>>, n: int)
    requires
        0 <= n <= checks.len(),
        first_failure(checks.subrange(0, n)) is Some,
    ensures
        first_failure(checks) == first_failure(checks.subrange(0, n)),
    decreases checks.len() - n,
{
    if n < checks.len() {
        lemma_first_failure_push(checks.subrange(0, n), checks[n]);
        assert(checks.subrange(0, n).push(checks[n]) =~= checks.subrange(0, n + 1));
        lemma_first_failure_prefix(checks, n + 1);
    } else {
        assert(checks.subrange(0, n) =~= checks);
    }
}

/// A list of checks passes exactly where each check passes.
pub proof fn lemma_first_failure_none(checks: Seq<Option<ProgramError>>)
    ensures
        first_failure(checks) is None <==> forall|i: int| 0 <= i < checks.len() ==> #[trigger] checks[i] is None,
    decreases checks.len(),
{
    if checks.len() > 0 {
        let d = checks.drop_last();
        let last = checks.len() - 1;
        lemma_first_failure_none(d);
        if first_failure(d) is Some {
            let i = choose|i: int| 0 <= i < d.len() && !(d[i] is None);
            assert(d[i] == checks[i]);
        } else if first_failure(checks) is None {
            assert forall|i: int| 0 <= i < checks.len() implies #[trigger] checks[i] is None by {
                if i < last {
                    assert(d[i] == checks[i]);
                }
            }
        } else {
            assert(checks[last] is Some);
        }
    }
}

/// Steps the check of a prefix forward by the check at position `i`.
proof fn lemma_step(checks: Seq<Option<ProgramError>>, i: int)
    requires
        0 <= i < checks.len(),
        first_failure(checks.subrange(0, i)) is None,
    ensures
        first_failure(checks.subrange(0, i + 1)) == checks[i],
        checks[i] is Some ==> first_failure(checks) == checks[i],
{
    lemma_first_failure_push(checks.subrange(0, i), checks[i]);
    assert(checks.subrange(0, i).push(checks[i]) =~= checks.subrange(0, i + 1));
    if checks[i] is Some {
        lemma_first_failure_prefix(checks, i + 1);
    }
}

/// What stands against assigning register `locator` where registers
/// `0 .. next` are assigned: it is assigned already, or it skips registers.
pub open spec fn assignment_error(locator: u64, next: int) -> Option<ProgramError> {
    if locator < next {
        Some(ProgramError::RegisterReassigned)
    } else if locator > next {
        Some(ProgramError::RegisterOutOfOrder)
    } else {
        None
    }
}

/// What stands against reading register `locator` where registers
/// `0 .. assigned` are assigned: it is not assigned yet.
pub open spec fn read_error(locator: u64, assigned: int) -> Option<ProgramError> {
    if locator < assigned {
        None
    } else {
        Some(ProgramError::UndefinedRegister)
    }
}

/// What stands against an input, given as its register and whether its type
/// names only declared definitions, at the given position.
pub open spec fn input_error(input: (u64, bool), position: int) -> Option<ProgramError> {
    if !input.1 {
        Some(ProgramError::UndefinedType)
    } else {
        assignment_error(input.0, position)
    }
}

/// What stands against an output, given as its register and whether its
/// type names only declared definitions, where `assigned` registers are.
pub open spec fn output_error(output: (u64, bool), assigned: int) -> Option<ProgramError> {
    if !output.1 {
        Some(ProgramError::UndefinedType)
    } else {
        read_error(output.0, assigned)
    }
}

/// The number of destinations of the first `k` instructions.
pub open spec fn destinations_count(instructions: Seq<Instruction>, k: int) -> int
    decreases k,
{
    if k <= 0 {
        0
    } else {
        destinations_count(instructions, k - 1) + instructions[k - 1].destinations@.len()
    }
}

/// The checks of the operands of an instruction, where `next` registers are assigned.
pub open spec fn operand_checks(instruction: Instruction, next: int) -> Seq<Option<ProgramError>> {
    Seq::new(instruction.operands@.len(), |i: int| read_error(instruction.operands@[i].locator, next))
}

/// The checks of the destinations of an instruction, which take the
/// registers from `next` on.
pub open spec fn destination_checks(instruction: Instruction, next: int) -> Seq<Option<ProgramError>> {
    Seq::new(instruction.destinations@.len(), |i: int| assignment_error(instruction.destinations@[i], next + i))
}

/// What stands against an instruction, where `next` registers are assigned:
/// an operand not assigned yet, then a destination out of turn.
pub open spec fn instruction_error(instruction: Instruction, next: int) -> Option<ProgramError> {
    match first_failure(operand_checks(instruction, next)) {
        Some(e) => Some(e),
        None => first_failure(destination_checks(instruction, next)),
    }
}

pub open spec fn input_checks(inputs: Seq<(u64, bool)>) -> Seq<Option<ProgramError>> {
    Seq::new(inputs.len(), |i: int| input_error(inputs[i], i))
}

/// The checks of the instructions, the first of which sees `start` registers assigned.
pub open spec fn instruction_checks(instructions: Seq<Instruction>, start: int) -> Seq<Option<ProgramError>> {
    Seq::new(instructions.len(), |k: int| instruction_error(instructions[k], start + destinations_count(instructions, k)))
}

pub open spec fn output_checks(outputs: Seq<(u64, bool)>, assigned: int) -> Seq<Option<ProgramError>> {
    Seq::new(outputs.len(), |i: int| output_error(outputs[i], assigned))
}

/// The number of registers a body assigns: its inputs and its destinations.
pub open spec fn assigned_count(inputs: Seq<(u64, bool)>, instructions: Seq<Instruction>) -> int {
    inputs.len() + destinations_count(instructions, instructions.len() as int)
}

/// The first thing that stands against the registers of a body: the inputs,
/// then the instructions, then the outputs, each in order.
pub open spec fn registers_error(
    inputs: Seq<(u64, bool)>,
    instructions: Seq<Instruction>,
    outputs: Seq<(u64, bool)>,
) -> Option<ProgramError> {
    match first_failure(input_checks(inputs)) {
        Some(e) => Some(e),
        None => match first_failure(instruction_checks(instructions, inputs.len() as int)) {
            Some(e) => Some(e),
            None => first_failure(output_checks(outputs, assigned_count(inputs, instructions))),
        },
    }
}

/// Each register of a list, with a type that names only declared definitions.
pub open spec fn with_types_defined(registers: Seq<u64>) -> Seq<(u64, bool)> {
    registers.map_values(|locator: u64| (locator, true))
}

/// Where the registers of a body are in order: each input and destination
/// takes the next register, and each register read is assigned before.
pub open spec fn registers_in_order(inputs: Seq<u64>, instructions: Seq<Instruction>, outputs: Seq<u64>) -> bool {
    registers_error(with_types_defined(inputs), instructions, with_types_defined(outputs)) is None
}

/// The registers of a list of registers with their types.
pub open spec fn locators(registers: Seq<(u64, bool)>) -> Seq<u64> {
    registers.map_values(|r: (u64, bool)| r.0)
}

/// A body whose registers meet the rules has only types that name declared
/// definitions, and its registers are in order.
pub proof fn lemma_registers_error_none(
    inputs: Seq<(u64, bool)>,
    instructions: Seq<Instruction>,
    outputs: Seq<(u64, bool)>,
)
    requires
        registers_error(inputs, instructions, outputs) is None,
    ensures
        forall|i: int| 0 <= i < inputs.len() ==> #[trigger] inputs[i].1,
        forall|i: int| 0 <= i < outputs.len() ==> #[trigger] outputs[i].1,
        registers_in_order(locators(inputs), instructions, locators(outputs)),
{
    lemma_first_failure_none(input_checks(inputs));
    lemma_first_failure_none(output_checks(outputs, assigned_count(inputs, instructions)));
    assert forall|i: int| 0 <= i < inputs.len() implies #[trigger] inputs[i].1 by {
        assert(input_checks(inputs)[i] is None);
    }
    assert forall|i: int| 0 <= i < outputs.len() implies #[trigger] outputs[i].1 by {
        assert(output_checks(outputs, assigned_count(inputs, instructions))[i] is None);
    }
    assert forall|i: int| 0 <= i < inputs.len() implies #[trigger] with_types_defined(locators(inputs))[i] == inputs[i] by {
        assert(inputs[i].1);
    }
    assert forall|i: int| 0 <= i < outputs.len() implies #[trigger] with_types_defined(locators(outputs))[i] == outputs[i] by {
        assert(outputs[i].1);
    }
    assert(with_types_defined(locators(inputs)) =~= inputs);
    assert(with_types_defined(locators(outputs)) =~= outputs);
}

/// The destinations of the instructions before `b` outnumber those before
/// `a` by at least the destinations of instruction `a`.
proof fn lemma_destinations_count_grows(instructions: Seq<Instruction>, a: int, b: int)
    requires
        0 <= a < b <= instructions.len(),
    ensures
        destinations_count(instructions, a) + instructions[a].destinations@.len() <= destinations_count(
            instructions,
            b,
        ),
    decreases b - a,
{
    if b > a + 1 {
        lemma_destinations_count_grows(instructions, a, b - 1);
    }
}

/// Where the registers of a body are in order, the inputs take the registers
/// `0 .. n`, each destination takes the register after those assigned before
/// it, every operand is assigned before its instruction, and every output is
/// assigned.
pub proof fn law_registers_in_order(inputs: Seq<u64>, instructions: Seq<Instruction>, outputs: Seq<u64>)
    requires
        registers_in_order(inputs, instructions, outputs),
    ensures
        forall|i: int| 0 <= i < inputs.len() ==> #[trigger] inputs[i] == i,
        forall|k: int, t: int|
            0 <= k < instructions.len() && 0 <= t < instructions[k].destinations@.len()
                ==> #[trigger] instructions[k].destinations@[t] == inputs.len() + destinations_count(instructions, k)
                + t,
        forall|k: int, t: int|
            0 <= k < instructions.len() && 0 <= t < instructions[k].operands@.len()
                ==> #[trigger] instructions[k].operands@[t].locator < inputs.len() + destinations_count(
                instructions,
                k,
            ),
        forall|j: int|
            0 <= j < outputs.len() ==> #[trigger] outputs[j] < inputs.len() + destinations_count(
                instructions,
                instructions.len() as int,
            ),
{
    let ins = with_types_defined(inputs);
    let outs = with_types_defined(outputs);
    let start = inputs.len() as int;
    lemma_first_failure_none(input_checks(ins));
    lemma_first_failure_none(instruction_checks(instructions, start));
    lemma_first_failure_none(output_checks(outs, assigned_count(ins, instructions)));
    assert forall|i: int| 0 <= i < inputs.len() implies #[trigger] inputs[i] == i by {
        assert(input_checks(ins)[i] is None);
    }
    assert forall|k: int, t: int|
        0 <= k < instructions.len() && 0 <= t < instructions[k].destinations@.len()
            implies #[trigger] instructions[k].destinations@[t] == start + destinations_count(instructions, k) + t by {
        let next = start + destinations_count(instructions, k);
        assert(instruction_checks(instructions, start)[k] is None);
        lemma_first_failure_none(destination_checks(instructions[k], next));
        assert(destination_checks(instructions[k], next)[t] is None);
    }
    assert forall|k: int, t: int|
        0 <= k < instructions.len() && 0 <= t < instructions[k].operands@.len()
            implies #[trigger] instructions[k].operands@[t].locator < start + destinations_count(instructions, k) by {
        let next = start + destinations_count(instructions, k);
        assert(instruction_checks(instructions, start)[k] is None);
        lemma_first_failure_none(operand_checks(instructions[k], next));
        assert(operand_checks(instructions[k], next)[t] is None);
    }
    assert forall|j: int| 0 <= j < outputs.len() implies #[trigger] outputs[j] < start + destinations_count(
        instructions,
        instructions.len() as int,
    ) by {
        assert(output_checks(outs, assigned_count(ins, instructions))[j] is None);
    }
}

/// Where the registers of a body are in order, no register is assigned
/// twice: no two destinations take the same register, and none takes the
/// register of an input.
pub proof fn law_registers_assigned_once(inputs: Seq<u64>, instructions: Seq<Instruction>, outputs: Seq<u64>)
    requires
        registers_in_order(inputs, instructions, outputs),
    ensures
        forall|k1: int, t1: int, k2: int, t2: int|
            0 <= k1 < instructions.len() && 0 <= t1 < instructions[k1].destinations@.len() && 0 <= k2
                < instructions.len() && 0 <= t2 < instructions[k2].destinations@.len() && (k1 != k2 || t1 != t2)
                ==> #[trigger] instructions[k1].destinations@[t1] != #[trigger] instructions[k2].destinations@[t2],
        forall|i: int, k: int, t: int|
            0 <= i < inputs.len() && 0 <= k < instructions.len() && 0 <= t < instructions[k].destinations@.len()
                ==> #[trigger] inputs[i] != #[trigger] instructions[k].destinations@[t],
{
    law_registers_in_order(inputs, instructions, outputs);
    assert forall|k1: int, t1: int, k2: int, t2: int|
        0 <= k1 < instructions.len() && 0 <= t1 < instructions[k1].destinations@.len() && 0 <= k2
            < instructions.len() && 0 <= t2 < instructions[k2].destinations@.len() && (k1 != k2 || t1 != t2)
            implies #[trigger] instructions[k1].destinations@[t1] != #[trigger] instructions[k2].destinations@[t2] by {
        if k1 < k2 {
            lemma_destinations_count_grows(instructions, k1, k2);
        } else if k2 < k1 {
            lemma_destinations_count_grows(instructions, k2, k1);
        }
    }
    assert forall|i: int, k: int, t: int|
        0 <= i < inputs.len() && 0 <= k < instructions.len() && 0 <= t < instructions[k].destinations@.len()
            implies #[trigger] inputs[i] != #[trigger] instructions[k].destinations@[t] by {
        if k > 0 {
            lemma_destinations_count_grows(instructions, 0, k);
        }
    }
}

/// Whether a plaintext type names only declared interfaces.
pub open spec fn plaintext_type_defined(interfaces: Set<Seq<u8>>, t: PlaintextType) -> bool {
    match t {
        PlaintextType::Literal(_) => true,
        PlaintextType::Interface(name) => interfaces.contains(name@),
    }
}

/// Whether a register type names only declared interfaces and record types.
pub open spec fn register_type_defined(interfaces: Set<Seq<u8>>, records: Set<Seq<u8>>, t: RegisterType) -> bool {
    match t {
        RegisterType::Plaintext(p) => plaintext_type_defined(interfaces, p),
        RegisterType::Record(name) => records.contains(name@),
    }
}

/// Whether a value type names only declared interfaces and record types.
pub open spec fn value_type_defined(interfaces: Set<Seq<u8>>, records: Set<Seq<u8>>, t: ValueType) -> bool {
    match t {
        ValueType::Constant(p) => plaintext_type_defined(interfaces, p),
        ValueType::Public(p) => plaintext_type_defined(interfaces, p),
        ValueType::Private(p) => plaintext_type_defined(interfaces, p),
        ValueType::Record(name) => records.contains(name@),
    }
}

/// Returns what stands against assigning register `locator` where registers
/// `0 .. next` are assigned.
fn check_assignment(locator: u64, next: u128) -> (r: Option<ProgramError>)
    ensures
        r == assignment_error(locator, next as int),
{
    if (locator as u128) < next {
        Some(ProgramError::RegisterReassigned)
    } else if (locator as u128) > next {
        Some(ProgramError::RegisterOutOfOrder)
    } else {
        None
    }
}

/// Returns what stands against reading register `locator` where registers
/// `0 .. assigned` are assigned.
fn check_read(locator: u64, assigned: u128) -> (r: Option<ProgramError>)
    ensures
        r == read_error(locator, assigned as int),
{
    if (locator as u128) < assigned {
        None
    } else {
        Some(ProgramError::UndefinedRegister)
    }
}

/// Checks an instruction where `next` registers are assigned, and returns
/// how many are assigned after it.
fn check_instruction(instruction: &Instruction, next: u128) -> (r: Result<u128, ProgramError>)
    requires
        next <= u64::MAX as u128 + 1,
    ensures
        match r {
            Ok(after) => instruction_error(*instruction, next as int) is None && after == next
                + instruction.destinations@.len() && after <= u64::MAX as u128 + 1,
            Err(e) => instruction_error(*instruction, next as int) == Some(e),
        },
{
    let ghost reads = operand_checks(*instruction, next as int);
    let mut i: usize = 0;
    while i < instruction.operands.len()
        invariant
            i <= instruction.operands@.len(),
            reads == operand_checks(*instruction, next as int),
            first_failure(reads.subrange(0, i as int)) is None,
        decreases instruction.operands@.len() - i,
    {
        let e = check_read(instruction.operands[i].locator, next);
        proof {
            lemma_step(reads, i as int);
        }
        if let Some(e) = e {
            return Err(e);
        }
        i = i + 1;
    }
    assert(reads.subrange(0, reads.len() as int) =~= reads);
    let ghost writes = destination_checks(*instruction, next as int);
    let mut after: u128 = next;
    let mut j: usize = 0;
    while j < instruction.destinations.len()
        invariant
            j <= instruction.destinations@.len(),
            writes == destination_checks(*instruction, next as int),
            reads == operand_checks(*instruction, next as int),
            first_failure(reads) is None,
            first_failure(writes.subrange(0, j as int)) is None,
            after == next + j,
            after <= u64::MAX as u128 + 1,
        decreases instruction.destinations@.len() - j,
    {
        let e = check_assignment(instruction.destinations[j], after);
        proof {
            lemma_step(writes, j as int);
        }
        if let Some(e) = e {
            return Err(e);
        }
        after = after + 1;
        j = j + 1;
    }
    assert(writes.subrange(0, writes.len() as int) =~= writes);
    Ok(after)
}

/// Checks the registers of a body: its inputs and outputs, each with whether
/// its type names only declared definitions, and its instructions.
pub fn check_registers(
    inputs: &Vec<(u64, bool)>,
    instructions: &Vec<Instruction>,
    outputs: &Vec<(u64, bool)>,
) -> (r: Result<(), ProgramError>)
    ensures
        match r {
            Ok(()) => registers_error(inputs@, instructions@, outputs@) is None,
            Err(e) => registers_error(inputs@, instructions@, outputs@) == Some(e),
        },
{
    let ghost ins = input_checks(inputs@);
    let n = inputs.len();
    let mut i: usize = 0;
    while i < n
        invariant
            n == inputs@.len(),
            i <= n,
            ins == input_checks(inputs@),
            first_failure(ins.subrange(0, i as int)) is None,
        decreases n - i,
    {
        let (locator, defined) = inputs[i];
        let e = if !defined {
            Some(ProgramError::UndefinedType)
        } else {
            check_assignment(locator, i as u128)
        };
        proof {
            lemma_step(ins, i as int);
        }
        if let Some(e) = e {
            return Err(e);
        }
        i = i + 1;
    }
    assert(ins.subrange(0, n as int) =~= ins);
    let ghost steps = instruction_checks(instructions@, n as int);
    let mut next: u128 = n as u128;
    let mut k: usize = 0;
    while k < instructions.len()
        invariant
            n == inputs@.len(),
            k <= instructions@.len(),
            steps == instruction_checks(instructions@, n as int),
            ins == input_checks(inputs@),
            first_failure(ins) is None,
            first_failure(steps.subrange(0, k as int)) is None,
            next == n + destinations_count(instructions@, k as int),
            next <= u64::MAX as u128 + 1,
        decreases instructions@.len() - k,
    {
        let checked = check_instruction(&instructions[k], next);
        proof {
            lemma_step(steps, k as int);
        }
        match checked {
            Ok(after) => {
                next = after;
            },
            Err(e) => {
                return Err(e);
            },
        }
        k = k + 1;
    }
    assert(steps.subrange(0, steps.len() as int) =~= steps);
    let ghost outs = output_checks(outputs@, assigned_count(inputs@, instructions@));
    let mut j: usize = 0;
    while j < outputs.len()
        invariant
            j <= outputs@.len(),
            next == assigned_count(inputs@, instructions@),
            outs == output_checks(outputs@, assigned_count(inputs@, instructions@)),
            first_failure(ins) is None,
            first_failure(steps) is None,
            ins == input_checks(inputs@),
            steps == instruction_checks(instructions@, inputs@.len() as int),
            first_failure(outs.subrange(0, j as int)) is None,
        decreases outputs@.len() - j,
    {
        let (locator, defined) = outputs[j];
        let e = if !defined {
            Some(ProgramError::UndefinedType)
        } else {
            check_read(locator, next)
        };
        proof {
            lemma_step(outs, j as int);
        }
        if let Some(e) = e {
            return Err(e);
        }
        j = j + 1;
    }
    assert(outs.subrange(0, outs.len() as int) =~= outs);
    Ok(())
}

} // verus!
