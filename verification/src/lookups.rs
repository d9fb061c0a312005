//! What is found where: programs, functions, imports, circuit keys and counts, by the places at
//! which they stand.

use vstd::prelude::*;
use crate::error::{finds, Error};
use crate::keys::{CircuitKey, MadeKey, ProvingKey, UniversalSRS, VerifyingKey};
use crate::names::{Identifier, ProgramID};
use crate::process::ProcessView;
use crate::program::{Call, CallOperator, Instruction, Program};
use crate::request::{Authorization, Request};
use crate::stack::{function_calls, Stack, StackView};

verus! {

/// A function of the program bears the name.
pub open spec fn defines(program: &Program, name: Seq<char>) -> bool {
    exists|i: int| 0 <= i < program.functions@.len() && (#[trigger] program.functions@[i]).name@ == name
}

/// The function at `k` is the one that the name means: it bears the name, and none before it does.
pub open spec fn stands_at(program: &Program, name: Seq<char>, k: int) -> bool {
    &&& 0 <= k < program.functions@.len()
    &&& program.functions@[k].name@ == name
    &&& forall|j: int| 0 <= j < k ==> (#[trigger] program.functions@[j]).name@ != name
}

/// A program that is imported bears the name.
pub open spec fn imports(stack: StackView, id: Seq<char>) -> bool {
    exists|i: int|
        0 <= i < stack.external_programs.len() && (#[trigger] stack.external_programs[i]).id@ == id
}

/// A program defines a name if and only if one of its functions bears it, and the function of that
/// name is the first that does.
pub proof fn functions_are_found_by_name(program: &Program, name: Seq<char>)
    ensures
        program.has_function(name) <==> defines(program, name),
        defines(program, name) ==> exists|k: int| #[trigger] stands_at(program, name, k),
        forall|k: int| #[trigger]
            stands_at(program, name, k) ==> program.function(name) == program.functions@[k],
{
    if defines(program, name) {
        let i = choose|i: int|
            0 <= i < program.functions@.len() && (#[trigger] program.functions@[i]).name@ == name;
        program.lemma_named_function(i);
        let k = choose|k: int| program.first_function_at(name, k);
        assert(program.first_function_at(name, k));
        assert(stands_at(program, name, k));
        assert forall|j: int| #[trigger] stands_at(program, name, j) implies program.function(name)
            == program.functions@[j] by {
            if j < k {
                assert(program.functions@[j].name@ != name);
            } else if k < j {
                assert(program.functions@[k].name@ != name);
            }
        }
    }
    if program.has_function(name) {
        let k = choose|k: int| program.first_function_at(name, k);
        assert(program.functions@[k].name@ == name);
    }
    assert forall|k: int| #[trigger] stands_at(program, name, k) implies program.function(name)
        == program.functions@[k] by {
        assert(program.functions@[k].name@ == name);
        assert(defines(program, name));
    }
}

/// A stack imports a name if and only if one of its external programs bears it, and the program
/// that is found under a name bears that name and is the first that does.
pub proof fn imports_are_found_by_name(stack: StackView, id: Seq<char>)
    ensures
        stack.has_external(id) <==> imports(stack, id),
        imports(stack, id) ==> stack.external(id).id@ == id,
        imports(stack, id) ==> exists|i: int|
            0 <= i < stack.external_programs.len() && #[trigger] stack.external_programs[i]
                == stack.external(id) && forall|j: int|
                0 <= j < i ==> (#[trigger] stack.external_programs[j]).id@ != id,
{
    if imports(stack, id) {
        let i = choose|i: int|
            0 <= i < stack.external_programs.len() && (#[trigger] stack.external_programs[i]).id@
                == id;
        lemma_some_import_is_first(stack, id, i);
        let k = choose|k: int| stack.first_external_at(id, k);
        assert(stack.first_external_at(id, k));
        assert(stack.external_programs[k] == stack.external(id));
    }
    if stack.has_external(id) {
        let k = choose|k: int| stack.first_external_at(id, k);
        assert(stack.external_programs[k].id@ == id);
    }
}

proof fn lemma_some_import_is_first(stack: StackView, id: Seq<char>, i: int)
    requires
        0 <= i < stack.external_programs.len(),
        stack.external_programs[i].id@ == id,
    ensures
        stack.has_external(id),
    decreases i,
{
    if !stack.first_external_at(id, i) {
        let j = choose|j: int| 0 <= j < i && (#[trigger] stack.external_programs[j]).id@ == id;
        lemma_some_import_is_first(stack, id, j);
    }
}

/// The instruction calls a function: one that its own program defines, or one that the program
/// under the name it is called by defines, among those that are imported.
pub open spec fn calls_a_function(stack: StackView, instruction: Instruction) -> bool {
    match instruction {
        Instruction::Other(_) => false,
        Instruction::Call(call) => match call.operator {
            CallOperator::Resource(resource) => defines(&*stack.program, resource@),
            CallOperator::Locator(locator) => exists|i: int|
                0 <= i < stack.external_programs.len() && (#[trigger] stack.external_programs[i]).id@
                    == locator.program_id@ && (forall|j: int|
                    0 <= j < i ==> (#[trigger] stack.external_programs[j]).id@
                        != locator.program_id@) && defines(
                    &*stack.external_programs[i],
                    locator.resource@,
                ),
        },
    }
}

/// The instruction calls into a program that is not imported.
pub open spec fn calls_astray(stack: StackView, instruction: Instruction) -> bool {
    instruction matches Instruction::Call(call) && call.operator matches CallOperator::Locator(locator)
        && !imports(stack, locator.program_id@)
}

/// A call tells whether it is one of a function, unless it leads into a program that is not
/// imported, which is the one error there is.
pub proof fn function_calls_are_told(stack: StackView, call: Call)
    ensures
        match call.function_called(stack) {
            Ok(answer) => !calls_astray(stack, Instruction::Call(call)) && answer
                == calls_a_function(stack, Instruction::Call(call)),
            Err(error) => calls_astray(stack, Instruction::Call(call)) && (call.operator matches
                CallOperator::Locator(locator) && error == Error::ExternalProgramNotFound(
                locator.program_id,
            )),
        },
{
    match call.operator {
        CallOperator::Resource(resource) => {
            functions_are_found_by_name(&*stack.program, resource@);
        },
        CallOperator::Locator(locator) => {
            let id = locator.program_id@;
            imports_are_found_by_name(stack, id);
            if imports(stack, id) {
                let i = choose|i: int|
                    0 <= i < stack.external_programs.len() && #[trigger] stack.external_programs[i]
                        == stack.external(id) && forall|j: int|
                        0 <= j < i ==> (#[trigger] stack.external_programs[j]).id@ != id;
                functions_are_found_by_name(&*stack.external(id), locator.resource@);
                assert forall|k: int|
                    0 <= k < stack.external_programs.len() && (
                    #[trigger] stack.external_programs[k]).id@ == id && (forall|j: int|
                        0 <= j < k ==> (#[trigger] stack.external_programs[j]).id@
                            != id) implies k == i by {
                    if i < k {
                        assert(stack.external_programs[i].id@ != id);
                    } else if k < i {
                        assert(stack.external_programs[k].id@ != id);
                    }
                }
            }
        },
    }
}

/// In a process, a call by a locator is one of a function if and only if the program of the
/// process under the locator's program ID defines that function.
pub proof fn locators_lead_to_the_program_of_that_name(
    process: ProcessView,
    id: Seq<char>,
    call: Call,
    answer: bool,
)
    requires
        process.well_formed(),
        process.stacks.contains_key(id),
        call.function_called(process.stacks[id]@) == Ok::<bool, Error>(answer),
    ensures
        call.operator matches CallOperator::Locator(locator) ==> {
            &&& process.programs.contains_key(locator.program_id@)
            &&& answer <==> defines(
                &*process.programs[locator.program_id@],
                locator.resource@,
            )
        },
        call.operator matches CallOperator::Resource(resource) ==> (answer <==> defines(
            &*process.programs[id],
            resource@,
        )),
{
    let stack = process.stacks[id]@;
    assert(process.stack_fits(id));
    function_calls_are_told(stack, call);
    match call.operator {
        CallOperator::Resource(resource) => {
            functions_are_found_by_name(&*process.programs[id], resource@);
        },
        CallOperator::Locator(locator) => {
            imports_are_found_by_name(stack, locator.program_id@);
            let i = choose|i: int|
                0 <= i < stack.external_programs.len() && #[trigger] stack.external_programs[i]
                    == stack.external(locator.program_id@) && forall|j: int|
                    0 <= j < i ==> (#[trigger] stack.external_programs[j]).id@
                        != locator.program_id@;
            assert(process.programs[locator.program_id@] == stack.external_programs[i]);
            functions_are_found_by_name(
                &*process.programs[locator.program_id@],
                locator.resource@,
            );
        },
    }
}

/// The instruction at `i` is the first that calls into a program that is not imported.
pub open spec fn first_astray_at(
    stack: StackView,
    instructions: Seq<Instruction>,
    i: int,
) -> bool {
    &&& 0 <= i < instructions.len()
    &&& calls_astray(stack, instructions[i])
    &&& forall|j: int| 0 <= j < i ==> !calls_astray(stack, #[trigger] instructions[j])
}

/// The function calls among instructions are as many as there are such instructions. They cannot
/// be counted if and only if one calls into a program that is not imported, and the first such
/// program is named.
pub proof fn function_calls_are_counted(stack: StackView, instructions: Seq<Instruction>)
    ensures
        match function_calls(stack, instructions) {
            Ok(count) => {
                &&& forall|i: int|
                    0 <= i < instructions.len() ==> !calls_astray(stack, #[trigger] instructions[i])
                &&& count == instructions.filter(
                    |instruction: Instruction| calls_a_function(stack, instruction),
                ).len()
            },
            Err(error) => exists|i: int| #[trigger]
                first_astray_at(stack, instructions, i) && error == Error::ExternalProgramNotFound(
                    instructions[i]->Call_0.operator->Locator_0.program_id,
                ),
        },
    decreases instructions.len(),
{
    reveal(Seq::filter);
    if instructions.len() > 0 {
        let front = instructions.drop_last();
        let last = instructions.len() - 1;
        function_calls_are_counted(stack, front);
        if let Instruction::Call(call) = instructions.last() {
            function_calls_are_told(stack, call);
        }
        match function_calls(stack, front) {
            Ok(_) => {
                assert forall|j: int| 0 <= j < last implies !calls_astray(
                    stack,
                    #[trigger] instructions[j],
                ) by {
                    assert(front[j] == instructions[j]);
                }
                if calls_astray(stack, instructions[last]) {
                    assert(first_astray_at(stack, instructions, last));
                }
            },
            Err(_) => {
                let i = choose|i: int| #[trigger]
                    first_astray_at(stack, front, i) && function_calls(stack, front) == Err::<
                        nat,
                        Error,
                    >(
                        Error::ExternalProgramNotFound(
                            front[i]->Call_0.operator->Locator_0.program_id,
                        ),
                    );
                assert forall|j: int| 0 <= j < i implies !calls_astray(
                    stack,
                    #[trigger] instructions[j],
                ) by {
                    assert(front[j] == instructions[j]);
                }
                assert(front[i] == instructions[i]);
                assert(first_astray_at(stack, instructions, i));
            },
        }
    }
}

/// What is found in a process is what its maps hold under the name, and each error says what is
/// missing.
pub proof fn maps_are_looked_up(
    process: ProcessView,
    program_id: ProgramID,
    function_name: Identifier,
)
    requires
        process.well_formed(),
    ensures
        process.program_of(program_id) == if process.programs.contains_key(program_id@) {
            Ok::<Program, Error>(*process.programs[program_id@])
        } else {
            Err(Error::ProgramNotFound(program_id))
        },
        process.stack_of(program_id) == if process.stacks.contains_key(program_id@) {
            Ok::<Stack, Error>(process.stacks[program_id@])
        } else {
            Err(Error::StackNotFound(program_id))
        },
        process.stacks.contains_key(program_id@) <==> process.programs.contains_key(program_id@),
        match process.key_of(program_id, function_name) {
            Ok(key) => {
                &&& process.stacks.contains_key(program_id@)
                &&& process.keys.contains_key((program_id@, function_name@))
                &&& key == process.keys[(program_id@, function_name@)]
            },
            Err(error) => if !process.stacks.contains_key(program_id@) {
                error == Error::StackNotFound(program_id)
            } else {
                &&& !process.keys.contains_key((program_id@, function_name@))
                &&& error == Error::KeyNotFound(
                    process.stacks[program_id@].program.id,
                    function_name,
                )
            },
        },
{
    assert(process.programs.dom().contains(program_id@) == process.stacks.dom().contains(
        program_id@,
    ));
    if process.stacks.contains_key(program_id@) {
        assert(process.stack_fits(program_id@));
    }
}

/// The function that a stack finds is the first of its program that bears the name.
pub proof fn stacks_find_functions(stack: StackView, name: Identifier)
    ensures
        match stack.function_of(name) {
            Ok(function) => exists|k: int| #[trigger]
                stands_at(&*stack.program, name@, k) && function == stack.program.functions@[k],
            Err(error) => !defines(&*stack.program, name@) && error == Error::FunctionNotFound(name),
        },
{
    functions_are_found_by_name(&*stack.program, name@);
    if defines(&*stack.program, name@) {
        let k = choose|k: int| #[trigger] stands_at(&*stack.program, name@, k);
        assert(stack.program.function(name@) == stack.program.functions@[k]);
    }
}

/// A process that was just made holds nothing, and keeps the reference string that it was given.
pub proof fn new_process_holds_nothing(srs: Option<UniversalSRS>)
    ensures
        forall|id: Seq<char>| !(#[trigger] ProcessView::empty(srs).programs.contains_key(id)),
        forall|id: Seq<char>| !(#[trigger] ProcessView::empty(srs).stacks.contains_key(id)),
        forall|name: (Seq<char>, Seq<char>)|
            !(#[trigger] ProcessView::empty(srs).keys.contains_key(name)),
        ProcessView::empty(srs).universal_srs == srs,
{
}

/// The reference string that is handed on is the one that the process was given, if any.
pub proof fn reference_string_is_handed_on(process: ProcessView, srs: Option<&UniversalSRS>)
    ensures
        process.universal_srs_is(srs) <==> match process.universal_srs {
            None => srs is None,
            Some(kept) => srs matches Some(given) && *given == kept,
        },
{
}

/// A circuit key that is inserted is held for its function, and changes nothing else.
pub proof fn inserted_key_is_held(
    process: ProcessView,
    program_id: Seq<char>,
    function_name: Seq<char>,
    key: CircuitKey,
)
    ensures
        ({
            let after = process.with_key(program_id, function_name, key);
            &&& after.keys.contains_key((program_id, function_name))
            &&& after.keys[(program_id, function_name)] == key
            &&& forall|other: (Seq<char>, Seq<char>)|
                other != (program_id, function_name) ==> (#[trigger] after.keys.contains_key(other)
                    <==> process.keys.contains_key(other))
            &&& forall|other: (Seq<char>, Seq<char>)|
                other != (program_id, function_name) && process.keys.contains_key(other)
                    ==> #[trigger] after.keys[other] == process.keys[other]
            &&& after.programs == process.programs
            &&& after.stacks == process.stacks
            &&& after.universal_srs == process.universal_srs
            &&& after.call_depth == process.call_depth
        }),
{
}

/// The circuit key at `i` is the last one for its function.
pub open spec fn last_made_at(made: Seq<MadeKey>, i: int) -> bool {
    &&& 0 <= i < made.len()
    &&& forall|j: int|
        i < j < made.len() ==> (#[trigger] made[j]).program_id@ != made[i].program_id@
            || made[j].function_name@ != made[i].function_name@
}

/// Of the circuit keys that are kept, the last one for each function is held. The keys of other
/// functions, and everything but the keys, stay as they were.
pub proof fn made_keys_are_held(process: ProcessView, made: Seq<MadeKey>)
    ensures
        forall|i: int| #[trigger]
            last_made_at(made, i) ==> ({
                let name = (made[i].program_id@, made[i].function_name@);
                process.with_made(made).keys.contains_key(name) && process.with_made(
                    made,
                ).keys[name] == made[i].key
            }),
        forall|program_id: Seq<char>, function_name: Seq<char>|
            (forall|j: int|
                0 <= j < made.len() ==> (#[trigger] made[j]).program_id@ != program_id
                    || made[j].function_name@ != function_name) ==> {
                &&& #[trigger] process.with_made(made).keys.contains_key(
                    (program_id, function_name),
                ) <==> process.keys.contains_key((program_id, function_name))
                &&& process.with_made(made).keys[(program_id, function_name)]
                    == process.keys[(program_id, function_name)]
            },
        process.with_made(made).programs == process.programs,
        process.with_made(made).stacks == process.stacks,
        process.with_made(made).universal_srs == process.universal_srs,
        process.with_made(made).call_depth == process.call_depth,
    decreases made.len(),
{
    if made.len() > 0 {
        let front = made.drop_last();
        made_keys_are_held(process, front);
        assert forall|i: int| #[trigger] last_made_at(made, i) implies ({
            let name = (made[i].program_id@, made[i].function_name@);
            process.with_made(made).keys.contains_key(name) && process.with_made(made).keys[name]
                == made[i].key
        }) by {
            if i < front.len() {
                assert(front[i] == made[i]);
                assert forall|j: int| i < j < front.len() implies (
                #[trigger] front[j]).program_id@ != front[i].program_id@ || front[j].function_name@
                    != front[i].function_name@ by {
                    assert(front[j] == made[j]);
                }
                assert(last_made_at(front, i));
                assert(made[made.len() - 1] == made.last());
            }
        }
        assert forall|program_id: Seq<char>, function_name: Seq<char>|
            (forall|j: int|
                0 <= j < made.len() ==> (#[trigger] made[j]).program_id@ != program_id
                    || made[j].function_name@ != function_name) implies {
            &&& #[trigger] process.with_made(made).keys.contains_key((program_id, function_name))
                <==> process.keys.contains_key((program_id, function_name))
            &&& process.with_made(made).keys[(program_id, function_name)]
                == process.keys[(program_id, function_name)]
        } by {
            assert forall|j: int| 0 <= j < front.len() implies (#[trigger] front[j]).program_id@
                != program_id || front[j].function_name@ != function_name by {
                assert(front[j] == made[j]);
            }
            assert(made[made.len() - 1] == made.last());
            assert(process.with_made(front).keys.contains_key((program_id, function_name))
                <==> process.keys.contains_key((program_id, function_name)));
        }
    }
}

/// The next request of an authorization is its first.
pub proof fn next_request_is_the_first(authorization: Authorization)
    ensures
        match authorization.next_request() {
            Ok(request) => authorization.requests@.len() > 0 && request
                == authorization.requests@[0],
            Err(error) => authorization.requests@.len() == 0 && error == Error::NoRequest,
        },
{
}

/// A reference that is found is to what was expected, and an error is the one expected.
pub proof fn found_is_expected<T>(found: Result<&T, Error>, expected: Result<T, Error>)
    ensures
        finds(found, expected) <==> match (found, expected) {
            (Ok(one), Ok(other)) => *one == other,
            (Err(one), Err(other)) => one == other,
            _ => false,
        },
{
}

/// Copies and names are compared by all that they hold.
pub proof fn views_hide_nothing(
    one: Request,
    other: Request,
    stack: Stack,
    another: Stack,
    proving: (ProvingKey, ProvingKey),
    verifying: (VerifyingKey, VerifyingKey),
    ids: (ProgramID, ProgramID),
    names: (Identifier, Identifier),
)
    ensures
        one@ == other@ <==> {
            &&& one.network_id == other.network_id
            &&& one.program_id == other.program_id
            &&& one.function_name == other.function_name
            &&& one.inputs@ == other.inputs@
            &&& one.tvk == other.tvk
            &&& one.signature@ == other.signature@
        },
        stack@ == another@ <==> {
            &&& stack.program == another.program
            &&& stack.external_programs@ == another.external_programs@
        },
        proving.0@ == proving.1@ <==> proving.0.bytes@ == proving.1.bytes@,
        verifying.0@ == verifying.1@ <==> verifying.0.bytes@ == verifying.1.bytes@,
        ids.0@ == ids.1@ <==> ids.0.name@ == ids.1.name@,
        names.0@ == names.1@ <==> names.0.name@ == names.1.name@,
{
}

} // verus!
