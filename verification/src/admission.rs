//! The process refuses no program for its calls that it could count.

use vstd::prelude::*;
use crate::calls::{calls_among, calls_in, lemma_calls_among_deeper, lemma_calls_deeper, stack_of};
use crate::names::Identifier;
use crate::process::ProcessView;
use crate::program::{CallOperator, Instruction, Program};

verus! {

/// The calls of the function end exactly `depth` deep.
spec fn ends_at(
    process: ProcessView,
    program: Program,
    function_name: Identifier,
    depth: nat,
) -> bool {
    &&& depth > 0
    &&& calls_in(process.stacks, process.stack_for(program), function_name, depth) is Some
    &&& calls_in(
        process.stacks,
        process.stack_for(program),
        function_name,
        (depth - 1) as nat,
    ) is None
}

/// Where some `instructions` need one more level, one of the functions that they call does, and
/// it is one of the same program.
proof fn lemma_deepest_call(
    process: ProcessView,
    program: Program,
    instructions: Seq<Instruction>,
    depth: nat,
) -> (callee: Identifier)
    requires
        process.well_formed(),
        depth > process.call_depth,
        calls_among(process.stacks, process.stack_for(program), instructions, depth) is Some,
        calls_among(
            process.stacks,
            process.stack_for(program),
            instructions,
            (depth - 1) as nat,
        ) is None,
    ensures
        program.has_function(callee@),
        ends_at(process, program, callee, depth),
    decreases instructions.len(),
{
    let stacks = process.stacks;
    let stack = process.stack_for(program);
    let below = (depth - 1) as nat;
    let front = instructions.drop_last();
    if calls_among(stacks, stack, front, below) is None {
        lemma_deepest_call(process, program, front, depth)
    } else {
        lemma_calls_among_deeper(stacks, stack, front, below, depth);
        let call = instructions.last()->Call_0;
        match call.operator {
            CallOperator::Resource(resource) => {
                if calls_in(stacks, stack, resource, below) is Some {
                    lemma_calls_deeper(stacks, stack, resource, below, depth);
                }
                resource
            },
            CallOperator::Locator(locator) => {
                if let Ok(other) = stack_of(stacks, locator.program_id) {
                    assert(calls_in(stacks, other@, locator.resource, process.call_depth) is Some);
                    lemma_calls_deeper(
                        stacks,
                        other@,
                        locator.resource,
                        process.call_depth,
                        below,
                    );
                    lemma_calls_deeper(
                        stacks,
                        other@,
                        locator.resource,
                        process.call_depth,
                        depth,
                    );
                }
                assert(false);
                locator.resource
            },
        }
    }
}

/// Functions of the program, the calls of the first of which end one level beyond those of the
/// process, and those of each other one level beyond the one before it.
spec fn chain(process: ProcessView, program: Program, places: Seq<int>) -> bool {
    forall|i: int|
        0 <= i < places.len() ==> {
            &&& 0 <= #[trigger] places[i] < program.functions@.len()
            &&& ends_at(
                process,
                program,
                program.functions@[places[i]].name,
                (process.call_depth + 1 + i) as nat,
            )
        }
}

/// A function whose calls end deep stands at the end of a chain that is as long.
proof fn lemma_chain(
    process: ProcessView,
    program: Program,
    function_name: Identifier,
    depth: nat,
) -> (places: Seq<int>)
    requires
        process.well_formed(),
        program.has_function(function_name@),
        depth > process.call_depth,
        ends_at(process, program, function_name, depth),
    ensures
        chain(process, program, places),
        places.len() == depth - process.call_depth,
    decreases depth,
{
    let stack = process.stack_for(program);
    let place = choose|i: int| program.first_function_at(function_name@, i);
    let name = program.functions@[place].name;
    assert(program.first_function_at(name@, place));
    assert(stack.function_of(name) == stack.function_of(function_name));
    assert(ends_at(process, program, name, depth));
    if depth == process.call_depth + 1 {
        let places = seq![place];
        assert(chain(process, program, places));
        places
    } else {
        let function = program.function(function_name@);
        let callee = lemma_deepest_call(
            process,
            program,
            function.instructions@,
            (depth - 1) as nat,
        );
        let before = lemma_chain(process, program, callee, (depth - 1) as nat);
        let places = before.push(place);
        assert forall|i: int| 0 <= i < places.len() implies {
            &&& 0 <= #[trigger] places[i] < program.functions@.len()
            &&& ends_at(
                process,
                program,
                program.functions@[places[i]].name,
                (process.call_depth + 1 + i) as nat,
            )
        } by {
            if i < before.len() {
                assert(places[i] == before[i]);
            }
        }
        places
    }
}

/// A chain is no longer than the program has functions.
proof fn lemma_chain_is_short(process: ProcessView, program: Program, places: Seq<int>)
    requires
        chain(process, program, places),
    ensures
        places.len() <= program.functions@.len(),
{
    let stacks = process.stacks;
    let stack = process.stack_for(program);
    let base = process.call_depth;
    assert forall|i: int, j: int| 0 <= i < j < places.len() implies places[i] != places[j] by {
        if places[i] == places[j] {
            let name = program.functions@[places[i]].name;
            lemma_calls_deeper(
                stacks,
                stack,
                name,
                (base + 1 + i) as nat,
                (base + j) as nat,
            );
        }
    }
    assert(places.no_duplicates());
    places.unique_seq_to_set();
    let range = vstd::set_lib::set_int_range(0, program.functions@.len() as int);
    vstd::set_lib::lemma_int_range(0, program.functions@.len() as int);
    assert(places.to_set().subset_of(range)) by {
        assert forall|place: int| places.to_set().contains(place) implies range.contains(place) by {
            let i = choose|i: int| 0 <= i < places.len() && places[i] == place;
            assert(0 <= places[i] < program.functions@.len());
        }
    }
    vstd::set_lib::lemma_len_subset(places.to_set(), range);
}

/// A function that the process finds no count for has none, however deep calls may nest.
pub proof fn uncountable_at_every_depth(
    process: ProcessView,
    program: Program,
    i: int,
    depth: nat,
)
    requires
        process.well_formed(),
        0 <= i < program.functions@.len(),
        process.call_depth + program.functions@.len() <= usize::MAX,
        !process.countable_at(program, i),
    ensures
        calls_in(
            process.stacks,
            process.stack_for(program),
            program.functions@[i].name,
            depth,
        ) is None,
    decreases depth,
{
    let stacks = process.stacks;
    let stack = process.stack_for(program);
    let name = program.functions@[i].name;
    let bound = process.depth_with(program);
    if depth > 0 {
        uncountable_at_every_depth(process, program, i, (depth - 1) as nat);
    }
    if calls_in(stacks, stack, name, depth) is Some {
        if depth <= bound {
            lemma_calls_deeper(stacks, stack, name, depth, bound);
        } else {
            program.lemma_named_function(i);
            let places = lemma_chain(process, program, name, depth);
            lemma_chain_is_short(process, program, places);
        }
        assert(false);
    }
}

} // verus!
