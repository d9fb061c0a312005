//! Calls with the calls that they make: how many requests and transitions they have, and that
//! those which are proved as they are made are verified.

use vstd::prelude::*;
use crate::calls::calls_in;
use crate::error::Error;
use crate::keys::{MadeKey, VerifyingKey};
use crate::laws::{calls_are_counted_through, one_and_the_calls_of, programs_and_stacks_go_together};
use crate::names::{Identifier, ProgramID};
use crate::outcomes::{executed_call_is_verified, lemma_what_was_run};
use crate::process::{Process, ProcessView};
use crate::program::{Call, CallOperator, Instruction, ValueType};
use crate::request::{
    Authorization, CallStack, PrivateKey, Request, RequestView, Response, Value,
};
use crate::run::{authorization_of, to_authorize};
use crate::soundness::{certain_at, proof_is_certain, valid_execution};
use crate::stack::{function_calls, Stack, StackView};
use crate::transition::{Execution, Field, Proof, Transition, TransitionValue};
use crate::verify::{last_of, values_outcome, Checks};

verus! {

/// A call with the calls that it makes, in their order: the request for it, and the transition that
/// proves it.
pub struct CallTree {
    pub request: RequestView,
    pub transition: Transition,
    pub calls: Seq<CallTree>,
}

/// The transitions of a call: those of the calls that it makes first, its own last.
pub open spec fn transitions_of(tree: CallTree) -> Seq<Transition>
    decreases tree,
{
    transitions_of_all(tree.calls).push(tree.transition)
}

/// The transitions of some calls, one call after the other.
pub open spec fn transitions_of_all(calls: Seq<CallTree>) -> Seq<Transition>
    decreases calls,
{
    if calls.len() == 0 {
        Seq::empty()
    } else {
        transitions_of_all(calls.drop_last()) + transitions_of(calls.last())
    }
}

/// The requests of a call: its own first, then those of the calls that it makes.
pub open spec fn requests_of(tree: CallTree) -> Seq<RequestView>
    decreases tree,
{
    seq![tree.request] + requests_of_all(tree.calls)
}

/// The requests of some calls, one call after the other.
pub open spec fn requests_of_all(calls: Seq<CallTree>) -> Seq<RequestView>
    decreases calls,
{
    if calls.len() == 0 {
        Seq::empty()
    } else {
        requests_of_all(calls.drop_last()) + requests_of(calls.last())
    }
}

/// The requests that an authorization holds.
pub open spec fn requests_in(authorization: Authorization) -> Seq<RequestView> {
    authorization.requests@.map_values(|request: Request| request@)
}

/// The transitions of the calls themselves, without those of the calls that they make.
pub open spec fn direct(calls: Seq<CallTree>) -> Seq<Transition> {
    calls.map_values(|call: CallTree| call.transition)
}

/// The request is for the function that is called within the program of `stack`.
pub open spec fn is_for(request: RequestView, call: Call, stack: StackView) -> bool {
    match call.operator {
        CallOperator::Locator(locator) => {
            &&& request.program_id@ == locator.program_id@
            &&& request.function_name@ == locator.resource@
        },
        CallOperator::Resource(resource) => {
            &&& request.program_id@ == stack.program_id()@
            &&& request.function_name@ == resource@
        },
    }
}

/// The calls are for the functions that the `instructions` call, one for each, in their order.
pub open spec fn follow(
    calls: Seq<CallTree>,
    stack: StackView,
    instructions: Seq<Instruction>,
) -> bool
    decreases instructions.len(),
{
    if instructions.len() == 0 {
        calls.len() == 0
    } else {
        match instructions.last() {
            Instruction::Other(_) => follow(calls, stack, instructions.drop_last()),
            Instruction::Call(call) => match call.function_called(stack) {
                Err(_) => false,
                Ok(false) => follow(calls, stack, instructions.drop_last()),
                Ok(true) => {
                    &&& calls.len() > 0
                    &&& is_for(calls.last().request, call, stack)
                    &&& follow(calls.drop_last(), stack, instructions.drop_last())
                },
            },
        }
    }
}

/// The call is for a function of the process, and so are the calls that it makes, one for each
/// function that its function calls.
pub open spec fn made_in(process: ProcessView, tree: CallTree) -> bool
    decreases tree,
{
    &&& process.stack_of(tree.request.program_id) matches Ok(stack) && (stack@.function_of(
        tree.request.function_name,
    ) matches Ok(function) && follow(tree.calls, stack@, function.instructions@))
    &&& all_made_in(process, tree.calls)
}

/// Each of the calls is made in the process.
pub open spec fn all_made_in(process: ProcessView, calls: Seq<CallTree>) -> bool
    decreases calls,
{
    calls.len() > 0 ==> {
        &&& all_made_in(process, calls.drop_last())
        &&& made_in(process, calls.last())
    }
}

/// The transition of the call is of the function that was requested, and so are those of the calls
/// that it makes.
pub open spec fn answers_requests(tree: CallTree) -> bool
    decreases tree,
{
    &&& tree.transition.program_id@ == tree.request.program_id@
    &&& tree.transition.function_name@ == tree.request.function_name@
    &&& all_answer_requests(tree.calls)
}

/// Each of the calls is of the function that was requested.
pub open spec fn all_answer_requests(calls: Seq<CallTree>) -> bool
    decreases calls,
{
    calls.len() > 0 ==> {
        &&& all_answer_requests(calls.drop_last())
        &&& answers_requests(calls.last())
    }
}

/// The transition of the call holds whatever is answered, and so do those of the calls that it
/// makes: each proof is for the calls that are made.
pub open spec fn proved_in<V, K, F, C>(
    process: ProcessView,
    tree: CallTree,
    checks: Checks<V, K, F, C>,
) -> bool where
    V: Fn(&TransitionValue) -> bool,
    K: Fn(&ProgramID, &Identifier) -> bool,
    F: Fn(i64) -> Result<Field, Error>,
    C: Fn(&VerifyingKey, &Identifier, &Vec<Field>, &Proof) -> bool,

    decreases tree,
{
    let transition = tree.transition;
    &&& !values_outcome(transition.inputs@, checks.value, false)
    &&& !values_outcome(transition.outputs@, checks.value, false)
    &&& forall|coinbase: bool| #[trigger]
        call_ensures(checks.coinbase, (&transition.program_id, &transition.function_name), coinbase)
            ==> (transition.fee < 0 <==> coinbase)
    &&& proof_is_certain(process, transition, direct(tree.calls), checks.fee, checks.proof)
    &&& all_proved_in(process, tree.calls, checks)
}

/// Each of the calls is proved.
pub open spec fn all_proved_in<V, K, F, C>(
    process: ProcessView,
    calls: Seq<CallTree>,
    checks: Checks<V, K, F, C>,
) -> bool where
    V: Fn(&TransitionValue) -> bool,
    K: Fn(&ProgramID, &Identifier) -> bool,
    F: Fn(i64) -> Result<Field, Error>,
    C: Fn(&VerifyingKey, &Identifier, &Vec<Field>, &Proof) -> bool,

    decreases calls,
{
    calls.len() > 0 ==> {
        &&& all_proved_in(process, calls.drop_last(), checks)
        &&& proved_in(process, calls.last(), checks)
    }
}

/// Wherever a call makes several, those after the first make none themselves.
pub open spec fn nests_in_first(tree: CallTree) -> bool
    decreases tree,
{
    &&& forall|i: int| 0 < i < tree.calls.len() ==> (#[trigger] tree.calls[i]).calls.len() == 0
    &&& all_nest_in_first(tree.calls)
}

/// Each of the calls nests in its first call only.
pub open spec fn all_nest_in_first(calls: Seq<CallTree>) -> bool
    decreases calls,
{
    calls.len() > 0 ==> {
        &&& all_nest_in_first(calls.drop_last())
        &&& nests_in_first(calls.last())
    }
}

/// Names that read alike have the same number of calls.
proof fn lemma_same_count(
    process: ProcessView,
    program_id: ProgramID,
    function_name: Identifier,
    other_id: ProgramID,
    other_name: Identifier,
)
    requires
        program_id@ == other_id@,
        function_name@ == other_name@,
        process.stack_of(program_id) matches Ok(stack) && stack@.function_of(function_name) is Ok,
        0 < process.call_depth,
    ensures
        process.number_of_calls(other_id, other_name) == process.number_of_calls(
            program_id,
            function_name,
        ),
{
    let stack = process.stack_of(program_id)->Ok_0;
    assert(stack@.function_of(other_name) == stack@.function_of(function_name));
    assert(calls_in(process.stacks, stack@, other_name, process.call_depth) == calls_in(
        process.stacks,
        stack@,
        function_name,
        process.call_depth,
    ));
}

/// A call has as many requests as transitions, its own request first and its own transition last.
pub proof fn requests_and_transitions_go_together(tree: CallTree)
    ensures
        requests_of(tree).len() == transitions_of(tree).len(),
        requests_of(tree)[0] == tree.request,
        transitions_of(tree).last() == tree.transition,
    decreases tree,
{
    lemma_all_go_together(tree.calls);
}

proof fn lemma_all_go_together(calls: Seq<CallTree>)
    ensures
        requests_of_all(calls).len() == transitions_of_all(calls).len(),
    decreases calls,
{
    if calls.len() > 0 {
        lemma_all_go_together(calls.drop_last());
        requests_and_transitions_go_together(calls.last());
    }
}

/// A call that is made in the process has as many requests, and as many transitions, as its
/// function has calls.
pub proof fn made_calls_are_counted(process: ProcessView, tree: CallTree)
    requires
        process.well_formed(),
        made_in(process, tree),
    ensures
        process.number_of_calls(tree.request.program_id, tree.request.function_name) == Ok::<
            nat,
            Error,
        >(requests_of(tree).len()),
        process.number_of_calls(tree.request.program_id, tree.request.function_name) == Ok::<
            nat,
            Error,
        >(transitions_of(tree).len()),
    decreases tree,
{
    let request = tree.request;
    let stack = process.stack_of(request.program_id)->Ok_0;
    let function = stack@.function_of(request.function_name)->Ok_0;
    calls_are_counted_through(
        process,
        request.program_id,
        request.function_name,
        stack,
        function,
    );
    lemma_all_counted(process, tree.calls, stack@, function.instructions@);
    requests_and_transitions_go_together(tree);
}

proof fn lemma_all_counted(
    process: ProcessView,
    calls: Seq<CallTree>,
    stack: StackView,
    instructions: Seq<Instruction>,
)
    requires
        process.well_formed(),
        all_made_in(process, calls),
        follow(calls, stack, instructions),
    ensures
        one_and_the_calls_of(process, stack, instructions) == Ok::<nat, Error>(
            1 + transitions_of_all(calls).len(),
        ),
        function_calls(stack, instructions) == Ok::<nat, Error>(calls.len()),
    decreases calls, instructions.len(),
{
    if instructions.len() > 0 {
        let front = instructions.drop_last();
        match instructions.last() {
            Instruction::Other(_) => {
                lemma_all_counted(process, calls, stack, front);
            },
            Instruction::Call(call) => {
                if call.function_called(stack) == Ok::<bool, Error>(true) {
                    lemma_all_counted(process, calls.drop_last(), stack, front);
                    let last = calls.last();
                    made_calls_are_counted(process, last);
                    match call.operator {
                        CallOperator::Locator(locator) => {
                            lemma_same_count(
                                process,
                                last.request.program_id,
                                last.request.function_name,
                                locator.program_id,
                                locator.resource,
                            );
                        },
                        CallOperator::Resource(resource) => {
                            lemma_same_count(
                                process,
                                last.request.program_id,
                                last.request.function_name,
                                stack.program_id(),
                                resource,
                            );
                        },
                    }
                } else {
                    lemma_all_counted(process, calls, stack, front);
                }
            },
        }
    }
}

/// Where calls nest in the first of them only, they are the last transitions before the one that
/// makes them.
proof fn lemma_direct_calls_are_last(calls: Seq<CallTree>)
    requires
        calls.len() > 0,
        forall|i: int| 0 < i < calls.len() ==> (#[trigger] calls[i]).calls.len() == 0,
    ensures
        transitions_of_all(calls) == transitions_of_all(calls[0].calls) + direct(calls),
    decreases calls.len(),
{
    let front = calls.drop_last();
    let last = calls.last();
    if calls.len() == 1 {
        assert(transitions_of_all(front) =~= Seq::empty());
        assert(last == calls[0]);
        assert(transitions_of(last) == transitions_of_all(last.calls).push(last.transition));
        assert(direct(calls) =~= seq![last.transition]);
        assert(transitions_of_all(calls) =~= transitions_of_all(calls[0].calls) + direct(calls));
    } else {
        assert forall|i: int| 0 < i < front.len() implies (#[trigger] front[i]).calls.len() == 0 by {
            assert(front[i] == calls[i]);
        }
        lemma_direct_calls_are_last(front);
        assert(last == calls[calls.len() - 1]);
        assert(last.calls.len() == 0);
        assert(transitions_of_all(last.calls) =~= Seq::empty());
        assert(transitions_of(last) =~= seq![last.transition]);
        assert(transitions_of_all(calls) =~= transitions_of_all(calls[0].calls) + direct(calls));
    }
}

/// What holds at a place holds there whatever comes behind it.
proof fn lemma_certain_within<V, K, F, C>(
    process: ProcessView,
    transitions: Seq<Transition>,
    more: Seq<Transition>,
    i: int,
    checks: Checks<V, K, F, C>,
) where
    V: Fn(&TransitionValue) -> bool,
    K: Fn(&ProgramID, &Identifier) -> bool,
    F: Fn(i64) -> Result<Field, Error>,
    C: Fn(&VerifyingKey, &Identifier, &Vec<Field>, &Proof) -> bool,

    requires
        0 <= i < transitions.len(),
        certain_at(process, transitions, i, checks),
    ensures
        certain_at(process, transitions + more, i, checks),
{
    assert((transitions + more).take(i) =~= transitions.take(i));
    assert((transitions + more)[i] == transitions[i]);
}

/// The transitions of a call that is proved hold, whatever comes before them.
proof fn lemma_proved_call<V, K, F, C>(
    process: ProcessView,
    before: Seq<Transition>,
    tree: CallTree,
    checks: Checks<V, K, F, C>,
) where
    V: Fn(&TransitionValue) -> bool,
    K: Fn(&ProgramID, &Identifier) -> bool,
    F: Fn(i64) -> Result<Field, Error>,
    C: Fn(&VerifyingKey, &Identifier, &Vec<Field>, &Proof) -> bool,

    requires
        process.well_formed(),
        made_in(process, tree),
        answers_requests(tree),
        proved_in(process, tree, checks),
        nests_in_first(tree),
    ensures
        forall|i: int|
            before.len() <= i < before.len() + transitions_of(tree).len() ==> certain_at(
                process,
                before + transitions_of(tree),
                i,
                checks,
            ),
    decreases tree,
{
    let inner = transitions_of_all(tree.calls);
    let whole = before + transitions_of(tree);
    let transition = tree.transition;
    let stack = process.stack_of(tree.request.program_id)->Ok_0;
    let function = stack@.function_of(tree.request.function_name)->Ok_0;
    assert(process.stack_of(transition.program_id) == Ok::<Stack, Error>(stack));
    assert(stack@.function_of(transition.function_name) == stack@.function_of(
        tree.request.function_name,
    ));
    lemma_proved_calls(process, before, tree.calls, checks);
    lemma_all_counted(process, tree.calls, stack@, function.instructions@);
    assert(whole =~= (before + inner) + seq![transition]);
    let count = tree.calls.len();
    assert(last_of(before + inner, count) =~= direct(tree.calls)) by {
        if count > 0 {
            lemma_direct_calls_are_last(tree.calls);
        } else {
            assert(inner =~= Seq::empty());
        }
    }
    assert forall|i: int| before.len() <= i < whole.len() implies certain_at(
        process,
        whole,
        i,
        checks,
    ) by {
        if i < before.len() + inner.len() {
            lemma_certain_within(process, before + inner, seq![transition], i, checks);
        } else {
            assert(whole.take(i) =~= before + inner);
            assert(whole[i] == transition);
        }
    }
}

proof fn lemma_proved_calls<V, K, F, C>(
    process: ProcessView,
    before: Seq<Transition>,
    calls: Seq<CallTree>,
    checks: Checks<V, K, F, C>,
) where
    V: Fn(&TransitionValue) -> bool,
    K: Fn(&ProgramID, &Identifier) -> bool,
    F: Fn(i64) -> Result<Field, Error>,
    C: Fn(&VerifyingKey, &Identifier, &Vec<Field>, &Proof) -> bool,

    requires
        process.well_formed(),
        all_made_in(process, calls),
        all_answer_requests(calls),
        all_proved_in(process, calls, checks),
        all_nest_in_first(calls),
    ensures
        forall|i: int|
            before.len() <= i < before.len() + transitions_of_all(calls).len() ==> certain_at(
                process,
                before + transitions_of_all(calls),
                i,
                checks,
            ),
    decreases calls,
{
    if calls.len() > 0 {
        let front = before + transitions_of_all(calls.drop_last());
        let rest = transitions_of(calls.last());
        let whole = before + transitions_of_all(calls);
        lemma_proved_calls(process, before, calls.drop_last(), checks);
        lemma_proved_call(process, front, calls.last(), checks);
        assert(whole =~= front + rest);
        assert forall|i: int| before.len() <= i < whole.len() implies certain_at(
            process,
            whole,
            i,
            checks,
        ) by {
            if i < front.len() {
                lemma_certain_within(process, front, rest, i, checks);
            }
        }
    }
}

/// A call that is made in the process and proved, and that nests in its first calls only, has a
/// valid execution.
pub proof fn proved_call_is_valid<V, K, F, C>(
    process: ProcessView,
    tree: CallTree,
    checks: Checks<V, K, F, C>,
) where
    V: Fn(&TransitionValue) -> bool,
    K: Fn(&ProgramID, &Identifier) -> bool,
    F: Fn(i64) -> Result<Field, Error>,
    C: Fn(&VerifyingKey, &Identifier, &Vec<Field>, &Proof) -> bool,

    requires
        process.well_formed(),
        made_in(process, tree),
        answers_requests(tree),
        proved_in(process, tree, checks),
        nests_in_first(tree),
    ensures
        valid_execution(process, transitions_of(tree), checks),
{
    let transitions = transitions_of(tree);
    made_calls_are_counted(process, tree);
    lemma_same_count(
        process,
        tree.request.program_id,
        tree.request.function_name,
        tree.transition.program_id,
        tree.transition.function_name,
    );
    lemma_proved_call(process, Seq::empty(), tree, checks);
    assert(Seq::empty() + transitions =~= transitions);
    assert forall|i: int| 0 <= i < transitions.len() implies certain_at(
        process,
        transitions,
        i,
        checks,
    ) by {
        assert(certain_at(process, Seq::empty() + transitions, i, checks));
    }
}

/// Both processes know the same stacks, so the same calls are made in them.
proof fn lemma_made_in_both(process: ProcessView, after: ProcessView, tree: CallTree)
    requires
        process.stacks == after.stacks,
        made_in(process, tree),
    ensures
        made_in(after, tree),
    decreases tree,
{
    lemma_all_made_in_both(process, after, tree.calls);
}

proof fn lemma_all_made_in_both(process: ProcessView, after: ProcessView, calls: Seq<CallTree>)
    requires
        process.stacks == after.stacks,
        all_made_in(process, calls),
    ensures
        all_made_in(after, calls),
    decreases calls,
{
    if calls.len() > 0 {
        lemma_all_made_in_both(process, after, calls.drop_last());
        lemma_made_in_both(process, after, calls.last());
    }
}

/// An authorization holds one request for each call: where `sign` signs for the function that it
/// is asked for, and whatever `execute` leaves is the requests of a call that is made in the
/// process, beginning with the one that was signed, then what `authorize` returned holds as many
/// requests as the function has calls, that for the function itself first.
pub proof fn authorized_call_has_a_request_for_each_call<S, E>(
    process: ProcessView,
    private_key: PrivateKey,
    program_id: ProgramID,
    function_name: Identifier,
    inputs: &[Value],
    sign: S,
    execute: E,
    authorization: Authorization,
) where
    S: FnOnce(&PrivateKey, &ProgramID, &Identifier, &[Value], &Vec<ValueType>) -> Result<
        Request,
        Error,
    >,
    E: FnOnce(&Stack, CallStack) -> Result<(Response, Authorization), Error>,

    requires
        process.well_formed(),
        forall|id: &ProgramID, name: &Identifier, types: &Vec<ValueType>, request: Request|
         #[trigger]
            call_ensures(
                sign,
                (&private_key, id, name, inputs, types),
                Ok::<Request, Error>(request),
            ) ==> request.program_id@ == id@ && request.function_name@ == name@,
        forall|
            stack: &Stack,
            call_stack: CallStack,
            request: Request,
            response: Response,
            left: Authorization,
        |
            #![trigger call_ensures(
                execute,
                (stack, call_stack),
                Ok::<(Response, Authorization), Error>((response, left)),
            ), to_authorize(call_stack, request, private_key)]
            process.stack_of(program_id) == Ok::<Stack, Error>(*stack) && request.program_id@
                == program_id@ && request.function_name@ == function_name@ && to_authorize(
                call_stack,
                request,
                private_key,
            ) && call_ensures(
                execute,
                (stack, call_stack),
                Ok::<(Response, Authorization), Error>((response, left)),
            ) ==> exists|tree: CallTree| #[trigger]
                requests_of(tree) == requests_in(left) && tree.request == request@ && made_in(
                    process,
                    tree,
                ),
        process.authorize_outcome(
            private_key,
            program_id,
            function_name,
            inputs,
            sign,
            execute,
            Ok::<Authorization, Error>(authorization),
        ),
    ensures
        process.number_of_calls(program_id, function_name) == Ok::<nat, Error>(
            authorization.requests@.len(),
        ),
        authorization.next_request() matches Ok(request) && request.program_id@ == program_id@
            && request.function_name@ == function_name@,
{
    let both = process.authorizable(program_id, function_name, inputs@.len() as usize)->Ok_0;
    let program = both.0;
    let function = both.1;
    programs_and_stacks_go_together(process, program_id);
    assert(program.first_function_at(
        function_name@,
        choose|i: int| program.first_function_at(function_name@, i),
    ));
    let answer = Ok::<Authorization, Error>(authorization);
    let signed = choose|signed: Result<Request, Error>| #[trigger]
        call_ensures(
            sign,
            (&private_key, &program.id, &function.name, inputs, &function.input_types),
            signed,
        ) && match signed {
            Err(error) => answer == Err::<Authorization, Error>(error),
            Ok(request) => process.signed_outcome(
                program.id,
                private_key,
                request,
                execute,
                answer,
            ),
        };
    let request = signed->Ok_0;
    let stack = process.stack_of(program.id)->Ok_0;
    let (call_stack, ran) = choose|
        call_stack: CallStack,
        ran: Result<(Response, Authorization), Error>,
    | #[trigger]
        call_ensures(execute, (&stack, call_stack), ran) && to_authorize(
            call_stack,
            request,
            private_key,
        ) && answer == authorization_of(ran);
    assert(ran == Ok::<(Response, Authorization), Error>((ran->Ok_0.0, authorization)));
    let tree = choose|tree: CallTree| #[trigger]
        requests_of(tree) == requests_in(authorization) && tree.request == request@ && made_in(
            process,
            tree,
        );
    made_calls_are_counted(process, tree);
    requests_and_transitions_go_together(tree);
    lemma_same_count(
        process,
        tree.request.program_id,
        tree.request.function_name,
        program_id,
        function_name,
    );
    assert(requests_in(authorization)[0] == authorization.requests@[0]@);
}

/// An execution holds one transition for each request of the authorization: where whatever `run`
/// returns is the transitions of a call whose requests are those of the authorization, then what
/// `execute` returned holds as many transitions as there are requests, and the last one is of the
/// function that the first request is for. They are as many as that function has calls, in the
/// process before and after.
pub proof fn executed_call_has_a_transition_for_each_request<const ID: u16, E>(
    process: Process<ID>,
    authorization: Authorization,
    run: E,
    response: Response,
    execution: Execution,
    after: ProcessView,
) where
    E: FnOnce(&Process<ID>, &Stack, CallStack) -> Result<
        (Response, Execution, Vec<MadeKey>),
        Error,
    >,

    requires
        process@.well_formed(),
        forall|ran: (Response, Execution, Vec<MadeKey>)| #[trigger]
            process.may_run(authorization, run, Ok::<_, Error>(ran)) ==> exists|tree: CallTree|
             #[trigger]
                transitions_of(tree) == ran.1.transitions@ && requests_of(tree) == requests_in(
                    authorization,
                ) && made_in(process@, tree) && answers_requests(tree),
        process.execute_outcome(
            authorization,
            run,
            Ok::<(Response, Execution), Error>((response, execution)),
            after,
        ),
    ensures
        execution.transitions@.len() == authorization.requests@.len(),
        authorization.next_request() matches Ok(request) && ({
            let last = execution.transitions@.last();
            &&& last.program_id@ == request.program_id@
            &&& last.function_name@ == request.function_name@
            &&& process@.number_of_calls(request.program_id, request.function_name) == Ok::<
                nat,
                Error,
            >(execution.transitions@.len())
            &&& after.number_of_calls(request.program_id, request.function_name) == Ok::<
                nat,
                Error,
            >(execution.transitions@.len())
        }),
{
    let ran = lemma_what_was_run(process, authorization, run, response, execution, after);
    let tree = choose|tree: CallTree| #[trigger]
        transitions_of(tree) == execution.transitions@ && requests_of(tree) == requests_in(
            authorization,
        ) && made_in(process@, tree) && answers_requests(tree);
    made_calls_are_counted(process@, tree);
    requests_and_transitions_go_together(tree);
    process@.lemma_with_made(ran.2@);
    assert(requests_in(authorization)[0] == authorization.requests@[0]@);
}

/// What is executed is verified in the process that executed it: where whatever `run` returns is
/// the transitions of a call that is made in the process, that is proved as it is made under the
/// circuit keys that are then kept, and that nests in its first calls only, then what `execute`
/// returned is verified in the process that it leaves.
pub proof fn executed_and_proved_call_is_verified<const ID: u16, E, V, K, F, C>(
    process: Process<ID>,
    authorization: Authorization,
    run: E,
    checks: Checks<V, K, F, C>,
    response: Response,
    execution: Execution,
    after: ProcessView,
    answer: Result<(), Error>,
) where
    E: FnOnce(&Process<ID>, &Stack, CallStack) -> Result<
        (Response, Execution, Vec<MadeKey>),
        Error,
    >,
    V: Fn(&TransitionValue) -> bool,
    K: Fn(&ProgramID, &Identifier) -> bool,
    F: Fn(i64) -> Result<Field, Error>,
    C: Fn(&VerifyingKey, &Identifier, &Vec<Field>, &Proof) -> bool,

    requires
        process@.well_formed(),
        forall|ran: (Response, Execution, Vec<MadeKey>)| #[trigger]
            process.may_run(authorization, run, Ok::<_, Error>(ran)) ==> exists|tree: CallTree|
             #[trigger]
                transitions_of(tree) == ran.1.transitions@ && made_in(process@, tree)
                    && answers_requests(tree) && proved_in(
                    process@.with_made(ran.2@),
                    tree,
                    checks,
                ) && nests_in_first(tree),
        process.execute_outcome(
            authorization,
            run,
            Ok::<(Response, Execution), Error>((response, execution)),
            after,
        ),
        after.verify_outcome(execution.transitions@, checks, answer),
    ensures
        answer is Ok,
{
    assert forall|ran: (Response, Execution, Vec<MadeKey>)| #[trigger]
        process.may_run(authorization, run, Ok::<_, Error>(ran)) implies valid_execution(
        process@.with_made(ran.2@),
        ran.1.transitions@,
        checks,
    ) by {
        let left = process@.with_made(ran.2@);
        let tree = choose|tree: CallTree| #[trigger]
            transitions_of(tree) == ran.1.transitions@ && made_in(process@, tree)
                && answers_requests(tree) && proved_in(left, tree, checks) && nests_in_first(tree);
        process@.lemma_with_made(ran.2@);
        lemma_made_in_both(process@, left, tree);
        proved_call_is_valid(left, tree, checks);
    }
    executed_call_is_verified(
        process,
        authorization,
        run,
        checks,
        response,
        execution,
        after,
        answer,
    );
}

} // verus!
