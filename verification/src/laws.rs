//! What holds of the process as a whole.

use vstd::prelude::*;
use crate::calls::{
    calls_among, calls_in, lemma_calls_decided, lemma_calls_deeper, lemma_calls_extended,
};
use crate::error::Error;
use crate::keys::{CircuitKey, ProvingKey, UniversalSRS, VerifyingKey};
use crate::names::{Identifier, ProgramID};
use crate::process::ProcessView;
use crate::program::{CallOperator, Function, Instruction, Program};
use crate::request::{Authorization, Request};
use crate::stack::{function_calls, Stack, StackView};

verus! {

/// A program is in the process if and only if its stack is, and the stack is of that program.
pub proof fn programs_and_stacks_go_together(process: ProcessView, program_id: ProgramID)
    requires
        process.well_formed(),
    ensures
        process.program_of(program_id) is Ok <==> process.stack_of(program_id) is Ok,
        process.stack_of(program_id) matches Ok(stack) ==> {
            &&& process.program_of(program_id) == Ok::<Program, Error>(*stack.program)
            &&& stack.program.id@ == program_id@
        },
{
    assert(process.programs.dom().contains(program_id@) == process.stacks.dom().contains(
        program_id@,
    ));
    if process.stacks.contains_key(program_id@) {
        assert(process.stack_fits(program_id@));
    }
}

/// A program that is added is found under its name.
pub proof fn added_program_is_found(
    process: ProcessView,
    program: Program,
    stack: Stack,
    program_id: ProgramID,
)
    requires
        program_id@ == program.id@,
    ensures
        process.with_program(program, stack).program_of(program_id) == Ok::<Program, Error>(program),
        process.with_program(program, stack).stack_of(program_id) == Ok::<Stack, Error>(stack),
{
}

/// A program that is added leaves the other programs, their stacks and every circuit key as they
/// were.
pub proof fn added_program_leaves_the_others(
    process: ProcessView,
    program: Program,
    stack: Stack,
    program_id: ProgramID,
    function_name: Identifier,
)
    requires
        program_id@ != program.id@,
    ensures
        ({
            let after = process.with_program(program, stack);
            &&& after.program_of(program_id) == process.program_of(program_id)
            &&& after.stack_of(program_id) == process.stack_of(program_id)
            &&& after.key_of(program_id, function_name) == process.key_of(
                program_id,
                function_name,
            )
            &&& after.function_info(program_id, function_name) == process.function_info(
                program_id,
                function_name,
            )
        }),
{
}

/// Every program is either admitted or refused, and refused for one reason only.
pub proof fn programs_are_admitted_or_refused(process: ProcessView, program: Program)
    ensures
        process.admits(program) <==> !exists|error: Error| process.refuses(program, error),
        forall|one: Error, other: Error|
            process.refuses(program, one) && process.refuses(program, other) ==> one == other,
{
    if !process.programs.contains_key(program.id@) {
        if exists|i: int|
            0 <= i < program.imports@.len() && !process.programs.contains_key(
                (#[trigger] program.imports@[i])@,
            ) {
            let i = choose|i: int|
                0 <= i < program.imports@.len() && !process.programs.contains_key(
                    (#[trigger] program.imports@[i])@,
                );
            let k = lemma_first_unknown_import(process, program, i);
            assert(process.refuses(program, Error::ProgramNotFound(program.imports@[k])));
        } else if exists|i: int|
            0 <= i < program.functions@.len() && !process.countable_at(program, i) {
            let i = choose|i: int|
                0 <= i < program.functions@.len() && !process.countable_at(program, i);
            let k = lemma_first_unbounded(process, program, i);
            assert(process.refuses(program, Error::UnboundedCalls(program.functions@[k].name)));
        }
    } else {
        assert(process.refuses(program, Error::ProgramExists(program.id)));
    }
    assert forall|one: Error, other: Error|
        process.refuses(program, one) && process.refuses(program, other) implies one == other by {
        assert forall|i: int, j: int|
            process.first_unknown_import_at(program, i) && process.first_unknown_import_at(
                program,
                j,
            ) implies i == j by {
            if i < j {
                assert(process.programs.contains_key(program.imports@[i]@));
            } else if j < i {
                assert(process.programs.contains_key(program.imports@[j]@));
            }
        }
    }
}

proof fn lemma_first_unknown_import(process: ProcessView, program: Program, i: int) -> (k: int)
    requires
        0 <= i < program.imports@.len(),
        !process.programs.contains_key(program.imports@[i]@),
    ensures
        process.first_unknown_import_at(program, k),
    decreases i,
{
    if process.first_unknown_import_at(program, i) {
        i
    } else {
        let j = choose|j: int|
            0 <= j < i && !process.programs.contains_key((#[trigger] program.imports@[j])@);
        lemma_first_unknown_import(process, program, j)
    }
}

proof fn lemma_first_unbounded(process: ProcessView, program: Program, i: int) -> (k: int)
    requires
        0 <= i < program.functions@.len(),
        !process.countable_at(program, i),
    ensures
        process.first_unbounded_at(program, k),
    decreases i,
{
    if process.first_unbounded_at(program, i) {
        i
    } else {
        let j = choose|j: int| 0 <= j < i && !process.countable_at(program, j);
        lemma_first_unbounded(process, program, j)
    }
}

/// A circuit key that is inserted for a function of a program in the process is the one that is
/// found, whatever was found before.
pub proof fn inserted_key_is_found(
    process: ProcessView,
    program_id: ProgramID,
    function_name: Identifier,
    key: CircuitKey,
)
    requires
        process.well_formed(),
        process.program_of(program_id) is Ok,
    ensures
        process.with_key(program_id@, function_name@, key).key_of(program_id, function_name)
            == Ok::<CircuitKey, Error>(key),
{
    programs_and_stacks_go_together(process, program_id);
}

/// A circuit key that is inserted leaves the keys of other functions, and everything but the
/// keys, as they were.
pub proof fn inserted_key_leaves_the_others(
    process: ProcessView,
    program_id: ProgramID,
    function_name: Identifier,
    key: CircuitKey,
    other_id: ProgramID,
    other_name: Identifier,
)
    requires
        process.well_formed(),
        other_id@ != program_id@ || other_name@ != function_name@,
    ensures
        ({
            let after = process.with_key(program_id@, function_name@, key);
            &&& after.well_formed()
            &&& after.key_of(other_id, other_name) == process.key_of(other_id, other_name)
            &&& after.programs == process.programs
            &&& after.stacks == process.stacks
            &&& after.number_of_calls(other_id, other_name) == process.number_of_calls(
                other_id,
                other_name,
            )
        }),
{
    programs_and_stacks_go_together(process, other_id);
    process.lemma_with_key(program_id@, function_name@, key);
}

/// Once the circuit key of a function was synthesized, one is found for it.
pub proof fn synthesized_key_is_found<F>(
    process: ProcessView,
    program_id: ProgramID,
    function_name: Identifier,
    synthesize: F,
    after: ProcessView,
) where
    F: FnOnce(&Stack, &Identifier, Option<&UniversalSRS>) -> Result<
        (ProvingKey, VerifyingKey),
        Error,
    >,

    requires
        process.well_formed(),
        process.synthesize_outcome(
            program_id,
            function_name,
            synthesize,
            Ok::<(), Error>(()),
            after,
        ),
    ensures
        after.key_of(program_id, function_name) is Ok,
{
    programs_and_stacks_go_together(process, program_id);
}

/// A call that can be authorized can be run: a request for it, with as many inputs, passes the
/// checks that stand before its evaluation, and an authorization that begins with that request
/// passes those that stand before its execution on the same network.
pub proof fn authorized_call_can_be_run(
    process: ProcessView,
    program_id: ProgramID,
    function_name: Identifier,
    program: Program,
    function: Function,
    request: Request,
    authorization: Authorization,
)
    requires
        process.well_formed(),
        process.authorizable(program_id, function_name, request.inputs.len()) == Ok::<_, Error>(
            (program, function),
        ),
        request.program_id@ == program.id@,
        request.function_name@ == function.name@,
        authorization.requests@.len() > 0,
        authorization.requests@[0] == request,
    ensures
        process.callee(request.program_id, request.function_name, request.inputs.len()) == Ok::<
            _,
            Error,
        >((program, function)),
        process.stack_of(program.id) matches Ok(stack) && *stack.program == program,
        process.executable(request.network_id, authorization) == process.stack_of(program.id),
{
    programs_and_stacks_go_together(process, program_id);
    let i = choose|i: int| program.first_function_at(function_name@, i);
    assert(program.first_function_at(function_name@, i));
    assert(function.name@ == function_name@);
}

/// One, and the number of calls of each function that the `instructions` call.
pub open spec fn one_and_the_calls_of(
    process: ProcessView,
    stack: StackView,
    instructions: Seq<Instruction>,
) -> Result<nat, Error>
    decreases instructions.len(),
{
    if instructions.len() == 0 {
        Ok(1)
    } else {
        match one_and_the_calls_of(process, stack, instructions.drop_last()) {
            Err(error) => Err(error),
            Ok(count) => match instructions.last() {
                Instruction::Other(_) => Ok(count),
                Instruction::Call(call) => match call.function_called(stack) {
                    Err(error) => Err(error),
                    Ok(false) => Ok(count),
                    Ok(true) => match (match call.operator {
                        CallOperator::Locator(locator) => process.number_of_calls(
                            locator.program_id,
                            locator.resource,
                        ),
                        CallOperator::Resource(resource) => process.number_of_calls(
                            stack.program_id(),
                            resource,
                        ),
                    }) {
                        Err(error) => Err(error),
                        Ok(number) => Ok(count + number),
                    },
                },
            },
        }
    }
}

/// The number of calls of a function is one, for itself, and the number of calls of each
/// function that it calls.
pub proof fn calls_are_counted_through(
    process: ProcessView,
    program_id: ProgramID,
    function_name: Identifier,
    stack: Stack,
    function: Function,
)
    requires
        process.well_formed(),
        process.stack_of(program_id) == Ok::<Stack, Error>(stack),
        stack@.function_of(function_name) == Ok::<Function, Error>(function),
    ensures
        process.number_of_calls(program_id, function_name) == one_and_the_calls_of(
            process,
            stack@,
            function.instructions@,
        ),
{
    let depth = (process.call_depth - 1) as nat;
    assert(calls_in(process.stacks, stack@, function_name, process.call_depth) is Some);
    lemma_counted_through(process, program_id@, function.instructions@, depth);
}

proof fn lemma_counted_through(
    process: ProcessView,
    id: Seq<char>,
    instructions: Seq<Instruction>,
    depth: nat,
)
    requires
        process.well_formed(),
        process.stacks.contains_key(id),
        depth <= process.call_depth,
        calls_among(process.stacks, process.stacks[id]@, instructions, depth) is Some,
    ensures
        calls_among(process.stacks, process.stacks[id]@, instructions, depth) == Some(
            one_and_the_calls_of(process, process.stacks[id]@, instructions),
        ),
    decreases instructions.len(),
{
    let stacks = process.stacks;
    let stack = stacks[id]@;
    assert(process.stack_fits(id));
    if instructions.len() > 0 {
        lemma_counted_through(process, id, instructions.drop_last(), depth);
        if let Instruction::Call(call) = instructions.last() {
            if call.function_called(stack) == Ok::<bool, Error>(true)
                && calls_among(stacks, stack, instructions.drop_last(), depth) matches Some(Ok(_)) {
                match call.operator {
                    CallOperator::Resource(resource) => {
                        lemma_calls_deeper(stacks, stack, resource, depth, process.call_depth);
                    },
                    CallOperator::Locator(locator) => {
                        if let Ok(other) = process.stack_of(locator.program_id) {
                            lemma_calls_deeper(
                                stacks,
                                other@,
                                locator.resource,
                                depth,
                                process.call_depth,
                            );
                        }
                    },
                }
            }
        }
    }
}

/// A call is counted: the number of calls of a function is never zero, and it is within `usize`.
pub proof fn a_call_counts(process: ProcessView, program_id: ProgramID, function_name: Identifier)
    requires
        process.well_formed(),
    ensures
        process.number_of_calls(program_id, function_name) matches Ok(count) ==> 1 <= count
            <= usize::MAX,
{
    if let Ok(stack) = process.stack_of(program_id) {
        assert(calls_in(process.stacks, stack@, function_name, process.call_depth) is Some);
        if let Ok(function) = stack@.function_of(function_name) {
            lemma_count_in_range(
                process.stacks,
                stack@,
                function.instructions@,
                (process.call_depth - 1) as nat,
            );
        }
    }
}

proof fn lemma_count_in_range(
    stacks: Map<Seq<char>, Stack>,
    stack: StackView,
    instructions: Seq<Instruction>,
    depth: nat,
)
    ensures
        calls_among(stacks, stack, instructions, depth) matches Some(Ok(count)) ==> 1 <= count
            <= usize::MAX,
    decreases instructions.len(),
{
    if instructions.len() > 0 {
        lemma_count_in_range(stacks, stack, instructions.drop_last(), depth);
    }
}

/// A function that calls no function is one call.
pub proof fn a_leaf_is_one_call(
    process: ProcessView,
    program_id: ProgramID,
    function_name: Identifier,
    stack: Stack,
    function: Function,
)
    requires
        process.well_formed(),
        process.stack_of(program_id) == Ok::<Stack, Error>(stack),
        stack@.function_of(function_name) == Ok::<Function, Error>(function),
        function_calls(stack@, function.instructions@) == Ok::<nat, Error>(0),
    ensures
        process.number_of_calls(program_id, function_name) == Ok::<nat, Error>(1),
{
    calls_are_counted_through(process, program_id, function_name, stack, function);
    lemma_leaf(process, stack@, function.instructions@);
}

proof fn lemma_leaf(process: ProcessView, stack: StackView, instructions: Seq<Instruction>)
    requires
        function_calls(stack, instructions) == Ok::<nat, Error>(0),
    ensures
        one_and_the_calls_of(process, stack, instructions) == Ok::<nat, Error>(1),
    decreases instructions.len(),
{
    if instructions.len() > 0 {
        lemma_leaf(process, stack, instructions.drop_last());
    }
}

/// The number of calls of a function is greater than that of its instructions that call one.
pub proof fn every_function_call_counts(
    process: ProcessView,
    program_id: ProgramID,
    function_name: Identifier,
    stack: Stack,
    function: Function,
    direct: nat,
)
    requires
        process.well_formed(),
        process.stack_of(program_id) == Ok::<Stack, Error>(stack),
        stack@.function_of(function_name) == Ok::<Function, Error>(function),
        function_calls(stack@, function.instructions@) == Ok::<nat, Error>(direct),
    ensures
        process.number_of_calls(program_id, function_name) matches Ok(count) ==> count >= 1
            + direct,
{
    calls_are_counted_through(process, program_id, function_name, stack, function);
    lemma_direct_calls(process, stack@, function.instructions@);
}

proof fn lemma_direct_calls(process: ProcessView, stack: StackView, instructions: Seq<Instruction>)
    requires
        process.well_formed(),
    ensures
        one_and_the_calls_of(process, stack, instructions) matches Ok(count) ==> (function_calls(
            stack,
            instructions,
        ) matches Ok(direct) && count >= 1 + direct),
    decreases instructions.len(),
{
    if instructions.len() > 0 {
        lemma_direct_calls(process, stack, instructions.drop_last());
        if let Instruction::Call(call) = instructions.last() {
            match call.operator {
                CallOperator::Locator(locator) => {
                    a_call_counts(process, locator.program_id, locator.resource);
                },
                CallOperator::Resource(resource) => {
                    a_call_counts(process, stack.program_id(), resource);
                },
            }
        }
    }
}

/// A program that is added does not change how many calls the functions of the others amount to.
pub proof fn added_program_leaves_the_counts(
    process: ProcessView,
    program: Program,
    stack: Stack,
    program_id: ProgramID,
    function_name: Identifier,
)
    requires
        process.well_formed(),
        process.admits(program),
        stack@ == process.stack_for(program),
        program_id@ != program.id@,
    ensures
        process.with_program(program, stack).number_of_calls(program_id, function_name)
            == process.number_of_calls(program_id, function_name),
{
    let after = process.with_program(program, stack);
    if let Ok(known) = process.stack_of(program_id) {
        process.lemma_reaches_within();
        assert(process.stacks.submap_of(after.stacks)) by {
            assert(!process.stacks.dom().contains(program.id@));
        }
        lemma_calls_extended(
            process.stacks,
            after.stacks,
            known@,
            function_name,
            after.call_depth,
        );
        assert(calls_in(process.stacks, known@, function_name, process.call_depth) is Some);
        lemma_calls_deeper(
            process.stacks,
            known@,
            function_name,
            process.call_depth,
            after.call_depth,
        );
    }
}

/// A function that calls itself cannot be counted, however deep calls may nest, unless an
/// instruction before that call decides.
pub proof fn recursion_is_not_counted(
    stacks: Map<Seq<char>, Stack>,
    stack: StackView,
    function_name: Identifier,
    function: Function,
    i: int,
    depth: nat,
)
    requires
        stack.function_of(function_name) == Ok::<Function, Error>(function),
        0 <= i < function.instructions@.len(),
        function.instructions@[i] matches Instruction::Call(call)
            && call.operator matches CallOperator::Resource(resource) && resource@
            == function_name@,
        forall|d: nat| !(#[trigger] calls_among(stacks, stack, function.instructions@.take(i), d)
            matches Some(Err(_))),
    ensures
        calls_in(stacks, stack, function_name, depth) is None,
    decreases depth,
{
    if depth > 0 {
        let below = (depth - 1) as nat;
        let all = function.instructions@;
        let called = all[i]->Call_0.operator->Resource_0;
        recursion_is_not_counted(stacks, stack, function_name, function, i, below);
        assert(stack.function_of(called) == Ok::<Function, Error>(function));
        assert(calls_in(stacks, stack, called, below) == calls_in(
            stacks,
            stack,
            function_name,
            below,
        ));
        assert(all.take(i + 1).drop_last() =~= all.take(i));
        assert(all.take(i + 1).last() == all[i]);
        assert(all[i]->Call_0.function_called(stack) == Ok::<bool, Error>(true));
        assert(!(calls_among(stacks, stack, all.take(i), below) matches Some(Err(_))));
        assert(calls_among(stacks, stack, all.take(i + 1), below) is None);
        lemma_calls_decided(stacks, stack, all, below, i + 1);
    }
}

} // verus!
