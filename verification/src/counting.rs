//! How many calls a function amounts to, as a sum over its instructions, and which programs can be
//! added for it.

use vstd::prelude::*;
use crate::admission::uncountable_at_every_depth;
use crate::calls::{calls_among, calls_in, counted, lemma_calls_deeper};
use crate::error::Error;
use crate::laws::{calls_are_counted_through, one_and_the_calls_of};
use crate::lookups::{
    calls_a_function, calls_astray, defines, function_calls_are_told, functions_are_found_by_name,
    locators_lead_to_the_program_of_that_name, maps_are_looked_up, stacks_find_functions,
    stands_at,
};
use crate::names::{Identifier, ProgramID};
use crate::process::ProcessView;
use crate::program::{CallOperator, Instruction, Program};
use crate::stack::{Stack, StackView};

verus! {

/// The sum of some numbers.
pub open spec fn sum(numbers: Seq<nat>) -> nat {
    numbers.fold_left(0nat, |total: nat, number: nat| total + number)
}

/// The count of the function that the instruction calls.
pub open spec fn count_called(
    stacks: Map<Seq<char>, Stack>,
    stack: StackView,
    instruction: Instruction,
    depth: nat,
) -> Option<Result<nat, Error>> {
    match instruction->Call_0.operator {
        CallOperator::Resource(resource) => calls_in(stacks, stack, resource, depth),
        CallOperator::Locator(locator) => if stacks.contains_key(locator.program_id@) {
            calls_in(stacks, stacks[locator.program_id@]@, locator.resource, depth)
        } else {
            Some(Err(Error::StackNotFound(locator.program_id)))
        },
    }
}

/// What the instruction adds to the count.
pub open spec fn count_added(
    stacks: Map<Seq<char>, Stack>,
    stack: StackView,
    instruction: Instruction,
    depth: nat,
) -> nat {
    if calls_a_function(stack, instruction) {
        count_called(stacks, stack, instruction, depth)->Some_0->Ok_0
    } else {
        0
    }
}

/// What the instructions add to the count, one by one.
pub open spec fn counts_added(
    stacks: Map<Seq<char>, Stack>,
    stack: StackView,
    instructions: Seq<Instruction>,
    depth: nat,
) -> Seq<nat> {
    instructions.map_values(
        |instruction: Instruction| count_added(stacks, stack, instruction, depth),
    )
}

/// The instruction does not hinder the count: it calls into no program that is not imported, and
/// the function that it calls, if any, has a count.
pub open spec fn counts_well(
    stacks: Map<Seq<char>, Stack>,
    stack: StackView,
    instruction: Instruction,
    depth: nat,
) -> bool {
    &&& !calls_astray(stack, instruction)
    &&& calls_a_function(stack, instruction) ==> (count_called(
        stacks,
        stack,
        instruction,
        depth,
    ) matches Some(Ok(_)))
}

/// The first instruction that hinders the count is the one at `i`, and it does so with the error.
pub open spec fn fails_at(
    stacks: Map<Seq<char>, Stack>,
    stack: StackView,
    instructions: Seq<Instruction>,
    depth: nat,
    i: int,
    error: Error,
) -> bool {
    &&& 0 <= i < instructions.len()
    &&& forall|j: int|
        0 <= j < i ==> counts_well(stacks, stack, #[trigger] instructions[j], depth)
    &&& if calls_astray(stack, instructions[i]) {
        error == Error::ExternalProgramNotFound(
            instructions[i]->Call_0.operator->Locator_0.program_id,
        )
    } else {
        calls_a_function(stack, instructions[i]) && count_called(
            stacks,
            stack,
            instructions[i],
            depth,
        ) == Some(Err::<nat, Error>(error))
    }
}

/// The instruction at `i` is where the count is given up: those before it count well, and the
/// function that it calls has no count, or the count with it is beyond `usize`.
pub open spec fn stops_at(
    stacks: Map<Seq<char>, Stack>,
    stack: StackView,
    instructions: Seq<Instruction>,
    depth: nat,
    i: int,
) -> bool {
    &&& 0 <= i < instructions.len()
    &&& forall|j: int|
        0 <= j < i ==> counts_well(stacks, stack, #[trigger] instructions[j], depth)
    &&& calls_a_function(stack, instructions[i])
    &&& count_called(stacks, stack, instructions[i], depth) is None || (counts_well(
        stacks,
        stack,
        instructions[i],
        depth,
    ) && 1 + sum(counts_added(stacks, stack, instructions.take(i + 1), depth)) > usize::MAX)
}

proof fn lemma_sum_added(
    stacks: Map<Seq<char>, Stack>,
    stack: StackView,
    instructions: Seq<Instruction>,
    depth: nat,
)
    requires
        instructions.len() > 0,
    ensures
        sum(counts_added(stacks, stack, instructions, depth)) == sum(
            counts_added(stacks, stack, instructions.drop_last(), depth),
        ) + count_added(stacks, stack, instructions.last(), depth),
{
    let all = counts_added(stacks, stack, instructions, depth);
    assert(all.drop_last() =~= counts_added(stacks, stack, instructions.drop_last(), depth));
}

proof fn lemma_among_adds_up(
    stacks: Map<Seq<char>, Stack>,
    stack: StackView,
    instructions: Seq<Instruction>,
    depth: nat,
)
    ensures
        match calls_among(stacks, stack, instructions, depth) {
            Some(Ok(count)) => {
                &&& forall|j: int|
                    0 <= j < instructions.len() ==> counts_well(
                        stacks,
                        stack,
                        #[trigger] instructions[j],
                        depth,
                    )
                &&& count == 1 + sum(counts_added(stacks, stack, instructions, depth))
                &&& count <= usize::MAX
            },
            Some(Err(error)) => exists|i: int| #[trigger]
                fails_at(stacks, stack, instructions, depth, i, error),
            None => exists|i: int| #[trigger] stops_at(stacks, stack, instructions, depth, i),
        },
    decreases instructions.len(),
{
    if instructions.len() == 0 {
        assert(counts_added(stacks, stack, instructions, depth) =~= Seq::empty());
        assert(sum(Seq::empty()) == 0);
    } else {
        let front = instructions.drop_last();
        let last = instructions.len() - 1;
        lemma_among_adds_up(stacks, stack, front, depth);
        lemma_sum_added(stacks, stack, instructions, depth);
        assert forall|j: int| 0 <= j < last implies #[trigger] instructions[j] == front[j] by {}
        if let Instruction::Call(call) = instructions.last() {
            function_calls_are_told(stack, call);
        }
        match calls_among(stacks, stack, front, depth) {
            Some(Ok(_)) => {
                assert forall|j: int| 0 <= j < last implies counts_well(
                    stacks,
                    stack,
                    #[trigger] instructions[j],
                    depth,
                ) by {
                    assert(counts_well(stacks, stack, front[j], depth));
                }
                assert(instructions.take(last + 1) =~= instructions);
                match calls_among(stacks, stack, instructions, depth) {
                    Some(Ok(_)) => {},
                    Some(Err(error)) => {
                        assert(fails_at(stacks, stack, instructions, depth, last, error));
                    },
                    None => {
                        assert(stops_at(stacks, stack, instructions, depth, last));
                    },
                }
            },
            Some(Err(error)) => {
                let i = choose|i: int| #[trigger]
                    fails_at(stacks, stack, front, depth, i, error);
                assert forall|j: int| 0 <= j < i implies counts_well(
                    stacks,
                    stack,
                    #[trigger] instructions[j],
                    depth,
                ) by {
                    assert(counts_well(stacks, stack, front[j], depth));
                }
                assert(instructions[i] == front[i]);
                assert(fails_at(stacks, stack, instructions, depth, i, error));
            },
            None => {
                let i = choose|i: int| #[trigger] stops_at(stacks, stack, front, depth, i);
                assert forall|j: int| 0 <= j < i implies counts_well(
                    stacks,
                    stack,
                    #[trigger] instructions[j],
                    depth,
                ) by {
                    assert(counts_well(stacks, stack, front[j], depth));
                }
                assert(instructions[i] == front[i]);
                assert(instructions.take(i + 1) =~= front.take(i + 1));
                assert(stops_at(stacks, stack, instructions, depth, i));
            },
        }
    }
}

/// The calls of a function, one level deep, are itself and the sum of the counts of the functions
/// that it calls, each counted one level less deep. There is an error where the function is
/// missing, or where the first instruction that hinders the count has one. There is no count at
/// depth zero, and else only where that of a called function is missing or the sum is beyond
/// `usize`.
pub proof fn counts_add_up(
    stacks: Map<Seq<char>, Stack>,
    stack: StackView,
    name: Identifier,
    depth: nat,
)
    ensures
        calls_in(stacks, stack, name, depth) is None ==> depth == 0 || exists|k: int, i: int|
            stands_at(&*stack.program, name@, k) && #[trigger] stops_at(
                stacks,
                stack,
                stack.program.functions@[k].instructions@,
                (depth - 1) as nat,
                i,
            ),
        calls_in(stacks, stack, name, depth) matches Some(Ok(count)) ==> depth > 0 && exists|
            k: int,
        | #[trigger]
            stands_at(&*stack.program, name@, k) && ({
                let instructions = stack.program.functions@[k].instructions@;
                &&& forall|j: int|
                    0 <= j < instructions.len() ==> counts_well(
                        stacks,
                        stack,
                        #[trigger] instructions[j],
                        (depth - 1) as nat,
                    )
                &&& count == 1 + sum(
                    counts_added(stacks, stack, instructions, (depth - 1) as nat),
                )
                &&& count <= usize::MAX
            }),
        calls_in(stacks, stack, name, depth) matches Some(Err(error)) ==> depth > 0 && ((!defines(
            &*stack.program,
            name@,
        ) && error == Error::FunctionNotFound(name)) || exists|k: int, i: int|
            stands_at(&*stack.program, name@, k) && #[trigger] fails_at(
                stacks,
                stack,
                stack.program.functions@[k].instructions@,
                (depth - 1) as nat,
                i,
                error,
            )),
{
    stacks_find_functions(stack, name);
    if depth > 0 {
        let below = (depth - 1) as nat;
        if let Ok(function) = stack.function_of(name) {
            let k = choose|k: int| #[trigger]
                stands_at(&*stack.program, name@, k) && function == stack.program.functions@[k];
            let instructions = stack.program.functions@[k].instructions@;
            lemma_among_adds_up(stacks, stack, instructions, below);
            match calls_among(stacks, stack, instructions, below) {
                Some(Ok(_)) => {},
                Some(Err(error)) => {
                    let i = choose|i: int| #[trigger]
                        fails_at(stacks, stack, instructions, below, i, error);
                    assert(fails_at(
                        stacks,
                        stack,
                        stack.program.functions@[k].instructions@,
                        below,
                        i,
                        error,
                    ));
                },
                None => {
                    let i = choose|i: int| #[trigger]
                        stops_at(stacks, stack, instructions, below, i);
                    assert(stops_at(
                        stacks,
                        stack,
                        stack.program.functions@[k].instructions@,
                        below,
                        i,
                    ));
                },
            }
        }
    }
}

/// A count that was made is the number itself.
pub proof fn counts_are_handed_on(answer: Option<Result<usize, Error>>)
    ensures
        match (answer, counted(answer)) {
            (None, None) => true,
            (Some(Err(one)), Some(Err(other))) => one == other,
            (Some(Ok(one)), Some(Ok(other))) => one == other,
            _ => false,
        },
{
}

/// The instruction, of the program called `id`, calls a function of the process.
pub open spec fn calls_within(process: ProcessView, id: Seq<char>, instruction: Instruction) -> bool {
    match instruction {
        Instruction::Other(_) => false,
        Instruction::Call(call) => match call.operator {
            CallOperator::Resource(resource) => defines(&*process.programs[id], resource@),
            CallOperator::Locator(locator) => process.programs.contains_key(locator.program_id@)
                && defines(&*process.programs[locator.program_id@], locator.resource@),
        },
    }
}

/// The number of calls of the function that the instruction calls.
pub open spec fn number_called(
    process: ProcessView,
    id: Seq<char>,
    instruction: Instruction,
) -> Result<nat, Error> {
    match instruction->Call_0.operator {
        CallOperator::Resource(resource) => process.number_of_calls(
            process.programs[id].id,
            resource,
        ),
        CallOperator::Locator(locator) => process.number_of_calls(
            locator.program_id,
            locator.resource,
        ),
    }
}

/// The numbers of calls that the instructions of the program called `id` lead to, one by one.
pub open spec fn numbers_added(
    process: ProcessView,
    id: Seq<char>,
    instructions: Seq<Instruction>,
) -> Seq<nat> {
    instructions.map_values(
        |instruction: Instruction|
            if calls_within(process, id, instruction) {
                number_called(process, id, instruction)->Ok_0
            } else {
                0nat
            },
    )
}

/// The instruction does not hinder the count in the process: it calls into no program that is not
/// imported, and the function that it calls, if any, has a number of calls.
pub open spec fn adds_well(process: ProcessView, id: Seq<char>, instruction: Instruction) -> bool {
    &&& !calls_astray(process.stacks[id]@, instruction)
    &&& calls_within(process, id, instruction) ==> number_called(process, id, instruction) is Ok
}

/// The first instruction that hinders the count in the process is the one at `i`, and it does so
/// with the error.
pub open spec fn hindered_at(
    process: ProcessView,
    id: Seq<char>,
    instructions: Seq<Instruction>,
    i: int,
    error: Error,
) -> bool {
    &&& 0 <= i < instructions.len()
    &&& forall|j: int| 0 <= j < i ==> adds_well(process, id, #[trigger] instructions[j])
    &&& if calls_astray(process.stacks[id]@, instructions[i]) {
        error == Error::ExternalProgramNotFound(
            instructions[i]->Call_0.operator->Locator_0.program_id,
        )
    } else {
        calls_within(process, id, instructions[i]) && number_called(process, id, instructions[i])
            == Err::<nat, Error>(error)
    }
}

proof fn lemma_numbers_add_up(process: ProcessView, id: Seq<char>, instructions: Seq<Instruction>)
    requires
        process.well_formed(),
        process.stacks.contains_key(id),
    ensures
        match one_and_the_calls_of(process, process.stacks[id]@, instructions) {
            Ok(count) => {
                &&& forall|j: int|
                    0 <= j < instructions.len() ==> adds_well(
                        process,
                        id,
                        #[trigger] instructions[j],
                    )
                &&& count == 1 + sum(numbers_added(process, id, instructions))
            },
            Err(error) => exists|i: int| #[trigger]
                hindered_at(process, id, instructions, i, error),
        },
    decreases instructions.len(),
{
    let stack = process.stacks[id]@;
    assert(process.stack_fits(id));
    if instructions.len() == 0 {
        assert(numbers_added(process, id, instructions) =~= Seq::empty());
        assert(sum(Seq::empty()) == 0);
    } else {
        let front = instructions.drop_last();
        let last = instructions.len() - 1;
        lemma_numbers_add_up(process, id, front);
        assert(numbers_added(process, id, instructions).drop_last() =~= numbers_added(
            process,
            id,
            front,
        ));
        assert(instructions[last] == instructions.last());
        if let Instruction::Call(call) = instructions.last() {
            function_calls_are_told(stack, call);
            if let Ok(answer) = call.function_called(stack) {
                locators_lead_to_the_program_of_that_name(process, id, call, answer);
            }
        }
        match one_and_the_calls_of(process, stack, front) {
            Ok(_) => {
                assert forall|j: int| 0 <= j < last implies adds_well(
                    process,
                    id,
                    #[trigger] instructions[j],
                ) by {
                    assert(adds_well(process, id, front[j]));
                }
                if let Err(error) = one_and_the_calls_of(process, stack, instructions) {
                    assert(hindered_at(process, id, instructions, last, error));
                }
            },
            Err(error) => {
                let i = choose|i: int| #[trigger] hindered_at(process, id, front, i, error);
                assert forall|j: int| 0 <= j < i implies adds_well(
                    process,
                    id,
                    #[trigger] instructions[j],
                ) by {
                    assert(adds_well(process, id, front[j]));
                }
                assert(instructions[i] == front[i]);
                assert(hindered_at(process, id, instructions, i, error));
            },
        }
    }
}

/// The number of calls of a function is one, for itself, and the sum of the numbers of calls of the
/// functions that its instructions call: those of its own program by their names, and those of
/// others by the names of their programs. It is an error if and only if the program or the function
/// is missing, an instruction calls into a program that is not imported, or the number of calls of
/// a function that is called is one.
pub proof fn numbers_of_calls_add_up(
    process: ProcessView,
    program_id: ProgramID,
    function_name: Identifier,
)
    requires
        process.well_formed(),
    ensures
        match process.number_of_calls(program_id, function_name) {
            Ok(count) => process.programs.contains_key(program_id@) && exists|k: int| #[trigger]
                stands_at(&*process.programs[program_id@], function_name@, k) && ({
                    let instructions =
                        process.programs[program_id@].functions@[k].instructions@;
                    &&& forall|j: int|
                        0 <= j < instructions.len() ==> adds_well(
                            process,
                            program_id@,
                            #[trigger] instructions[j],
                        )
                    &&& count == 1 + sum(numbers_added(process, program_id@, instructions))
                }),
            Err(error) => if !process.programs.contains_key(program_id@) {
                error == Error::StackNotFound(program_id)
            } else if !defines(&*process.programs[program_id@], function_name@) {
                error == Error::FunctionNotFound(function_name)
            } else {
                exists|k: int, i: int|
                    stands_at(&*process.programs[program_id@], function_name@, k)
                        && #[trigger] hindered_at(
                        process,
                        program_id@,
                        process.programs[program_id@].functions@[k].instructions@,
                        i,
                        error,
                    )
            },
        },
{
    maps_are_looked_up(process, program_id, function_name);
    if process.stacks.contains_key(program_id@) {
        let stack = process.stacks[program_id@];
        assert(process.stack_fits(program_id@));
        assert(calls_in(process.stacks, stack@, function_name, process.call_depth) is Some);
        stacks_find_functions(stack@, function_name);
        if let Ok(function) = stack@.function_of(function_name) {
            let k = choose|k: int| #[trigger]
                stands_at(&*stack.program, function_name@, k) && function
                    == stack.program.functions@[k];
            assert(stands_at(&*process.programs[program_id@], function_name@, k));
            assert(process.programs[program_id@].functions@[k].name@ == function_name@);
            calls_are_counted_through(process, program_id, function_name, stack, function);
            lemma_numbers_add_up(process, program_id@, function.instructions@);
            if let Err(error) = process.number_of_calls(program_id, function_name) {
                let i = choose|i: int| #[trigger]
                    hindered_at(process, program_id@, function.instructions@, i, error);
                assert(hindered_at(
                    process,
                    program_id@,
                    process.programs[program_id@].functions@[k].instructions@,
                    i,
                    error,
                ));
            }
        }
    }
}

/// No number is greater than the sum, and neither is the sum of the first ones.
proof fn lemma_sum_bounds(numbers: Seq<nat>, i: int)
    requires
        0 <= i < numbers.len(),
    ensures
        numbers[i] <= sum(numbers),
        sum(numbers.take(i + 1)) <= sum(numbers),
    decreases numbers.len(),
{
    if i < numbers.len() - 1 {
        lemma_sum_bounds(numbers.drop_last(), i);
        assert(numbers.take(i + 1) =~= numbers.drop_last().take(i + 1));
    } else {
        assert(numbers.take(i + 1) =~= numbers);
    }
}

/// What the instruction adds, where the functions of the new program have the given `numbers` of
/// calls and the others those that they have in the process.
pub open spec fn planned(
    process: ProcessView,
    stack: StackView,
    numbers: spec_fn(Seq<char>) -> nat,
    instruction: Instruction,
) -> nat {
    if !calls_a_function(stack, instruction) {
        0
    } else {
        match instruction->Call_0.operator {
            CallOperator::Resource(resource) => numbers(resource@),
            CallOperator::Locator(locator) => process.number_of_calls(
                locator.program_id,
                locator.resource,
            )->Ok_0,
        }
    }
}

/// Each function of the program that a name means can have the given number of calls: one, and the
/// sum of those of the functions that it calls, within `usize`.
pub open spec fn can_have_numbers(
    process: ProcessView,
    program: Program,
    numbers: spec_fn(Seq<char>) -> nat,
) -> bool {
    let stack = process.stack_for(program);
    forall|name: Seq<char>, k: int| #[trigger]
        stands_at(&program, name, k) ==> {
            let instructions = program.functions@[k].instructions@;
            &&& forall|j: int|
                0 <= j < instructions.len() ==> {
                    &&& !calls_astray(stack, #[trigger] instructions[j])
                    &&& calls_a_function(stack, instructions[j]) ==> (
                    instructions[j]->Call_0.operator matches CallOperator::Locator(locator)
                        ==> process.number_of_calls(locator.program_id, locator.resource) is Ok)
                }
            &&& numbers(name) == 1 + sum(
                instructions.map_values(
                    |instruction: Instruction| planned(process, stack, numbers, instruction),
                ),
            )
            &&& numbers(name) <= usize::MAX
        }
}

proof fn lemma_planned_count(
    process: ProcessView,
    program: Program,
    numbers: spec_fn(Seq<char>) -> nat,
    name: Identifier,
)
    requires
        process.well_formed(),
        forall|i: int|
            0 <= i < program.imports@.len() ==> process.programs.contains_key(
                (#[trigger] program.imports@[i])@,
            ),
        can_have_numbers(process, program, numbers),
        defines(&program, name@),
    ensures
        calls_in(
            process.stacks,
            process.stack_for(program),
            name,
            process.call_depth + numbers(name@),
        ) == Some(Ok::<nat, Error>(numbers(name@))),
    decreases numbers(name@),
{
    let stacks = process.stacks;
    let stack = process.stack_for(program);
    let number = numbers(name@);
    functions_are_found_by_name(&program, name@);
    let k = choose|k: int| #[trigger] stands_at(&program, name@, k);
    let instructions = program.functions@[k].instructions@;
    let plan = instructions.map_values(
        |instruction: Instruction| planned(process, stack, numbers, instruction),
    );
    assert(stands_at(&*stack.program, name@, k));
    assert(number == 1 + sum(plan));
    let depth = process.call_depth + number;
    let below = (depth - 1) as nat;
    assert forall|j: int| 0 <= j < instructions.len() implies counts_well(
        stacks,
        stack,
        #[trigger] instructions[j],
        below,
    ) && count_added(stacks, stack, instructions[j], below) == plan[j] by {
        lemma_sum_bounds(plan, j);
        assert(plan[j] == planned(process, stack, numbers, instructions[j]));
        assert(!calls_astray(stack, instructions[j]));
        if calls_a_function(stack, instructions[j]) {
            match instructions[j]->Call_0.operator {
                CallOperator::Resource(resource) => {
                    assert(defines(&program, resource@));
                    lemma_planned_count(process, program, numbers, resource);
                    lemma_calls_deeper(
                        stacks,
                        stack,
                        resource,
                        process.call_depth + numbers(resource@),
                        below,
                    );
                },
                CallOperator::Locator(locator) => {
                    maps_are_looked_up(process, locator.program_id, locator.resource);
                    let other = stacks[locator.program_id@]@;
                    assert(calls_in(stacks, other, locator.resource, process.call_depth) is Some);
                    lemma_calls_deeper(
                        stacks,
                        other,
                        locator.resource,
                        process.call_depth,
                        below,
                    );
                },
            }
        }
    }
    assert(counts_added(stacks, stack, instructions, below) =~= plan);
    counts_add_up(stacks, stack, name, depth);
    assert forall|m: int| #[trigger] stands_at(&*stack.program, name@, m) implies m == k by {
        if m < k {
            assert(program.functions@[m].name@ != name@);
        } else if k < m {
            assert(program.functions@[k].name@ != name@);
        }
    }
    match calls_in(stacks, stack, name, depth) {
        Some(Ok(_)) => {},
        Some(Err(error)) => {
            assert(program.functions@[k].name@ == name@);
            let (m, i) = choose|m: int, i: int|
                stands_at(&*stack.program, name@, m) && #[trigger] fails_at(
                    stacks,
                    stack,
                    stack.program.functions@[m].instructions@,
                    below,
                    i,
                    error,
                );
            assert(m == k);
            assert(counts_well(stacks, stack, instructions[i], below));
            assert(false);
        },
        None => {
            let (m, i) = choose|m: int, i: int|
                stands_at(&*stack.program, name@, m) && #[trigger] stops_at(
                    stacks,
                    stack,
                    stack.program.functions@[m].instructions@,
                    below,
                    i,
                );
            assert(m == k);
            assert(counts_well(stacks, stack, instructions[i], below));
            lemma_sum_bounds(plan, i);
            assert(counts_added(stacks, stack, instructions.take(i + 1), below) =~= plan.take(
                i + 1,
            ));
            assert(false);
        },
    }
}

/// A program whose name is free, whose imports are in the process, and whose functions can have
/// numbers of calls, is admitted.
pub proof fn countable_programs_are_admitted(
    process: ProcessView,
    program: Program,
    numbers: spec_fn(Seq<char>) -> nat,
)
    requires
        process.well_formed(),
        !process.programs.contains_key(program.id@),
        forall|i: int|
            0 <= i < program.imports@.len() ==> process.programs.contains_key(
                (#[trigger] program.imports@[i])@,
            ),
        can_have_numbers(process, program, numbers),
        process.call_depth + program.functions@.len() <= usize::MAX,
    ensures
        process.admits(program),
{
    assert forall|i: int| 0 <= i < program.functions@.len() implies process.countable_at(
        program,
        i,
    ) by {
        let name = program.functions@[i].name;
        assert(defines(&program, name@));
        lemma_planned_count(process, program, numbers, name);
        if !process.countable_at(program, i) {
            uncountable_at_every_depth(
                process,
                program,
                i,
                process.call_depth + numbers(name@),
            );
        }
    }
}

/// A program that is admitted has a free name and imports programs of the process. One that is
/// refused has a name that is taken, or imports a program that is not in the process, the first of
/// which is named, or has a function without a count, however deep calls may nest.
pub proof fn refused_programs_have_a_reason(process: ProcessView, program: Program, error: Error)
    requires
        process.well_formed(),
    ensures
        process.admits(program) ==> !process.programs.contains_key(program.id@) && forall|i: int|
            0 <= i < program.imports@.len() ==> process.programs.contains_key(
                (#[trigger] program.imports@[i])@,
            ),
        process.refuses(program, error) ==> if process.programs.contains_key(program.id@) {
            error == Error::ProgramExists(program.id)
        } else {
            (exists|i: int|
                0 <= i < program.imports@.len() && !process.programs.contains_key(
                    (#[trigger] program.imports@[i])@,
                ) && error == Error::ProgramNotFound(program.imports@[i]) && forall|j: int|
                    0 <= j < i ==> process.programs.contains_key((#[trigger] program.imports@[j])@))
                || (exists|i: int|
                0 <= i < program.functions@.len() && error == Error::UnboundedCalls(
                    (#[trigger] program.functions@[i]).name,
                ) && (process.call_depth + program.functions@.len() <= usize::MAX ==> forall|
                    depth: nat,
                | #[trigger]
                    calls_in(
                        process.stacks,
                        process.stack_for(program),
                        program.functions@[i].name,
                        depth,
                    ) is None))
        },
{
    if process.refuses(program, error) && !process.programs.contains_key(program.id@) {
        if exists|i: int| process.first_unknown_import_at(program, i) {
            let i = choose|i: int|
                process.first_unknown_import_at(program, i) && error == Error::ProgramNotFound(
                    program.imports@[i],
                );
            assert(!process.programs.contains_key(program.imports@[i]@));
        } else {
            let i = choose|i: int|
                process.first_unbounded_at(program, i) && error == Error::UnboundedCalls(
                    program.functions@[i].name,
                );
            assert(error == Error::UnboundedCalls(program.functions@[i].name));
            if process.call_depth + program.functions@.len() <= usize::MAX {
                assert forall|depth: nat| #[trigger]
                    calls_in(
                        process.stacks,
                        process.stack_for(program),
                        program.functions@[i].name,
                        depth,
                    ) is None by {
                    uncountable_at_every_depth(process, program, i, depth);
                }
            }
        }
    }
}

/// A program that is added is held with its stack, which imports the programs of the process by
/// their names, and everything else stays as it was.
pub proof fn added_program_is_held(process: ProcessView, program: Program, stack: Stack)
    requires
        stack@ == process.stack_for(program),
    ensures
        ({
            let after = process.with_program(program, stack);
            &&& after.programs.contains_key(program.id@)
            &&& *after.programs[program.id@] == program
            &&& after.stacks.contains_key(program.id@)
            &&& after.stacks[program.id@] == stack
            &&& forall|id: Seq<char>|
                id != program.id@ ==> (#[trigger] after.programs.contains_key(id)
                    <==> process.programs.contains_key(id)) && after.programs[id]
                    == process.programs[id]
            &&& forall|id: Seq<char>|
                id != program.id@ ==> (#[trigger] after.stacks.contains_key(id)
                    <==> process.stacks.contains_key(id)) && after.stacks[id] == process.stacks[id]
            &&& after.keys == process.keys
            &&& after.universal_srs == process.universal_srs
        }),
        *stack.program == program,
        stack.external_programs@.len() == program.imports@.len(),
        forall|i: int|
            0 <= i < program.imports@.len() ==> #[trigger] stack.external_programs@[i]
                == process.programs[program.imports@[i]@],
{
}

} // verus!
