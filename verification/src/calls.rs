//! How many calls one function call amounts to.

use vstd::prelude::*;
use crate::error::Error;
use crate::names::{Identifier, ProgramID};
use crate::program::{CallOperator, Instruction};
use crate::process::Process;
use crate::stack::{Stack, StackView};

verus! {

/// The stack of the program called `program_id`.
pub open spec fn stack_of(stacks: Map<Seq<char>, Stack>, program_id: ProgramID) -> Result<
    Stack,
    Error,
> {
    if stacks.contains_key(program_id@) {
        Ok(stacks[program_id@])
    } else {
        Err(Error::StackNotFound(program_id))
    }
}

/// The number of calls of a function, itself included, where calls nest at most `depth` deep.
/// `None` where they nest deeper, or where the number is beyond `usize`.
pub open spec fn calls_in(
    stacks: Map<Seq<char>, Stack>,
    stack: StackView,
    function_name: Identifier,
    depth: nat,
) -> Option<Result<nat, Error>>
    decreases depth, 0nat,
{
    if depth == 0 {
        None
    } else {
        match stack.function_of(function_name) {
            Err(error) => Some(Err(error)),
            Ok(function) => calls_among(
                stacks,
                stack,
                function.instructions@,
                (depth - 1) as nat,
            ),
        }
    }
}

/// One, and the number of calls that the `instructions` of a function of `stack` amount to. An
/// instruction that fails to tell decides: those behind it are not looked at.
pub open spec fn calls_among(
    stacks: Map<Seq<char>, Stack>,
    stack: StackView,
    instructions: Seq<Instruction>,
    depth: nat,
) -> Option<Result<nat, Error>>
    decreases depth, instructions.len() + 1,
{
    if instructions.len() == 0 {
        Some(Ok(1))
    } else {
        match calls_among(stacks, stack, instructions.drop_last(), depth) {
            None => None,
            Some(Err(error)) => Some(Err(error)),
            Some(Ok(count)) => match instructions.last() {
                Instruction::Other(_) => Some(Ok(count)),
                Instruction::Call(call) => match call.function_called(stack) {
                    Err(error) => Some(Err(error)),
                    Ok(false) => Some(Ok(count)),
                    Ok(true) => total(count, match call.operator {
                        CallOperator::Resource(resource) => calls_in(stacks, stack, resource, depth),
                        CallOperator::Locator(locator) => match stack_of(
                            stacks,
                            locator.program_id,
                        ) {
                            Err(error) => Some(Err(error)),
                            Ok(other) => calls_in(stacks, other@, locator.resource, depth),
                        },
                    }),
                },
            },
        }
    }
}

/// A count and what is to be added to it, within `usize`.
pub open spec fn total(count: nat, more: Option<Result<nat, Error>>) -> Option<Result<nat, Error>> {
    match more {
        None => None,
        Some(Err(error)) => Some(Err(error)),
        Some(Ok(n)) => if count + n <= usize::MAX {
            Some(Ok(count + n))
        } else {
            None
        },
    }
}

/// A count that was made, as a number.
pub open spec fn counted(answer: Option<Result<usize, Error>>) -> Option<Result<nat, Error>> {
    match answer {
        None => None,
        Some(Err(error)) => Some(Err(error)),
        Some(Ok(count)) => Some(Ok(count as nat)),
    }
}

/// Instructions that have no count, or that fail, decide for all that begin with them.
pub proof fn lemma_calls_decided(
    stacks: Map<Seq<char>, Stack>,
    stack: StackView,
    instructions: Seq<Instruction>,
    depth: nat,
    i: int,
)
    requires
        0 <= i <= instructions.len(),
        !(calls_among(stacks, stack, instructions.take(i), depth) matches Some(Ok(_))),
    ensures
        calls_among(stacks, stack, instructions, depth) == calls_among(
            stacks,
            stack,
            instructions.take(i),
            depth,
        ),
    decreases instructions.len() - i,
{
    if i < instructions.len() {
        assert(instructions.take(i + 1).drop_last() =~= instructions.take(i));
        lemma_calls_decided(stacks, stack, instructions, depth, i + 1);
    } else {
        assert(instructions.take(i) =~= instructions);
    }
}

/// A count that comes to an end is the same however deep calls may nest.
pub proof fn lemma_calls_deeper(
    stacks: Map<Seq<char>, Stack>,
    stack: StackView,
    function_name: Identifier,
    depth: nat,
    deeper: nat,
)
    requires
        depth <= deeper,
        calls_in(stacks, stack, function_name, depth) is Some,
    ensures
        calls_in(stacks, stack, function_name, deeper) == calls_in(
            stacks,
            stack,
            function_name,
            depth,
        ),
    decreases depth, 0nat,
{
    if let Ok(function) = stack.function_of(function_name) {
        lemma_calls_among_deeper(
            stacks,
            stack,
            function.instructions@,
            (depth - 1) as nat,
            (deeper - 1) as nat,
        );
    }
}

pub proof fn lemma_calls_among_deeper(
    stacks: Map<Seq<char>, Stack>,
    stack: StackView,
    instructions: Seq<Instruction>,
    depth: nat,
    deeper: nat,
)
    requires
        depth <= deeper,
        calls_among(stacks, stack, instructions, depth) is Some,
    ensures
        calls_among(stacks, stack, instructions, deeper) == calls_among(
            stacks,
            stack,
            instructions,
            depth,
        ),
    decreases depth, instructions.len() + 1,
{
    if instructions.len() > 0 {
        lemma_calls_among_deeper(stacks, stack, instructions.drop_last(), depth, deeper);
        if calls_among(stacks, stack, instructions.drop_last(), depth) matches Some(Ok(_)) {
            if let Instruction::Call(call) = instructions.last() {
                if call.function_called(stack) == Ok::<bool, Error>(true) {
                    match call.operator {
                        CallOperator::Resource(resource) => {
                            lemma_calls_deeper(stacks, stack, resource, depth, deeper);
                        },
                        CallOperator::Locator(locator) => {
                            if let Ok(other) = stack_of(stacks, locator.program_id) {
                                lemma_calls_deeper(
                                    stacks,
                                    other@,
                                    locator.resource,
                                    depth,
                                    deeper,
                                );
                            }
                        },
                    }
                }
            }
        }
    }
}

/// Every program that the stack imports has its stack among the `stacks`.
pub open spec fn reaches_within(stacks: Map<Seq<char>, Stack>, stack: StackView) -> bool {
    forall|i: int|
        0 <= i < stack.external_programs.len() ==> stacks.contains_key(
            (#[trigger] stack.external_programs[i]).id@,
        )
}

/// Stacks that are added do not change the count of a function that cannot reach them.
pub proof fn lemma_calls_extended(
    stacks: Map<Seq<char>, Stack>,
    more: Map<Seq<char>, Stack>,
    stack: StackView,
    function_name: Identifier,
    depth: nat,
)
    requires
        stacks.submap_of(more),
        reaches_within(stacks, stack),
        forall|id: Seq<char>| #[trigger]
            stacks.contains_key(id) ==> reaches_within(stacks, stacks[id]@),
    ensures
        calls_in(more, stack, function_name, depth) == calls_in(
            stacks,
            stack,
            function_name,
            depth,
        ),
    decreases depth, 0nat,
{
    if depth > 0 {
        if let Ok(function) = stack.function_of(function_name) {
            lemma_calls_among_extended(
                stacks,
                more,
                stack,
                function.instructions@,
                (depth - 1) as nat,
            );
        }
    }
}

proof fn lemma_calls_among_extended(
    stacks: Map<Seq<char>, Stack>,
    more: Map<Seq<char>, Stack>,
    stack: StackView,
    instructions: Seq<Instruction>,
    depth: nat,
)
    requires
        stacks.submap_of(more),
        reaches_within(stacks, stack),
        forall|id: Seq<char>| #[trigger]
            stacks.contains_key(id) ==> reaches_within(stacks, stacks[id]@),
    ensures
        calls_among(more, stack, instructions, depth) == calls_among(
            stacks,
            stack,
            instructions,
            depth,
        ),
    decreases depth, instructions.len() + 1,
{
    if instructions.len() > 0 {
        lemma_calls_among_extended(stacks, more, stack, instructions.drop_last(), depth);
        if let Instruction::Call(call) = instructions.last() {
            match call.operator {
                CallOperator::Resource(resource) => {
                    lemma_calls_extended(stacks, more, stack, resource, depth);
                },
                CallOperator::Locator(locator) => {
                    let id = locator.program_id@;
                    if stack.has_external(id) {
                        let i = choose|i: int| stack.first_external_at(id, i);
                        assert(stacks.contains_key(stack.external_programs[i].id@));
                        assert(stacks.contains_key(id) && more[id] == stacks[id]);
                        lemma_calls_extended(stacks, more, stacks[id]@, locator.resource, depth);
                    }
                },
            }
        }
    }
}

impl<const ID: u16> Process<ID> {
    /// Counts the calls of a function of the given stack, itself included, as long as they nest
    /// at most `depth` deep and their number is within `usize`.
    pub fn count_calls(&self, stack: &Stack, function_name: &Identifier, depth: usize) -> (answer:
        Option<Result<usize, Error>>)
        ensures
            counted(answer) == calls_in(self@.stacks, stack@, *function_name, depth as nat),
        decreases depth,
    {
        if depth == 0 {
            return None;
        }
        let function = match stack.get_function(function_name) {
            Ok(function) => function,
            Err(error) => return Some(Err(error)),
        };
        let ghost stacks = self@.stacks;
        let ghost all = function.instructions@;
        let ghost below = (depth - 1) as nat;
        // Determine the number of calls for this function (including the function itself).
        let mut count: usize = 1;
        let mut i: usize = 0;
        assert(all.take(0) =~= Seq::empty());
        while i < function.instructions.len()
            invariant
                depth > 0,
                below == depth - 1,
                stacks == self@.stacks,
                all == function.instructions@,
                stack@.function_of(*function_name) == Ok::<_, Error>(*function),
                i <= all.len(),
                calls_among(stacks, stack@, all.take(i as int), below) == Some(
                    Ok::<nat, Error>(count as nat),
                ),
            decreases all.len() - i,
        {
            proof {
                assert(all.take(i + 1).drop_last() =~= all.take(i as int));
                assert(all.take(i + 1).last() == all[i as int]);
                if !(calls_among(stacks, stack@, all.take(i + 1), below) matches Some(Ok(_))) {
                    lemma_calls_decided(stacks, stack@, all, below, i + 1);
                }
            }
            if let Instruction::Call(call) = &function.instructions[i] {
                match call.is_function_call(stack) {
                    Err(error) => return Some(Err(error)),
                    Ok(false) => {},
                    Ok(true) => {
                        let more = match &call.operator {
                            CallOperator::Locator(locator) => match self.get_stack(
                                &locator.program_id,
                            ) {
                                Ok(other) => self.count_calls(other, &locator.resource, depth - 1),
                                Err(error) => Some(Err(error)),
                            },
                            CallOperator::Resource(resource) => self.count_calls(
                                stack,
                                resource,
                                depth - 1,
                            ),
                        };
                        match more {
                            None => return None,
                            Some(Err(error)) => return Some(Err(error)),
                            Some(Ok(number)) => match count.checked_add(number) {
                                None => return None,
                                Some(sum) => {
                                    count = sum;
                                },
                            },
                        }
                    },
                }
            }
            i += 1;
        }
        assert(all.take(i as int) =~= all);
        Some(Ok(count))
    }
}

} // verus!
