//! What authorization, evaluation, execution and synthesis come to.

use vstd::prelude::*;
use crate::error::Error;
use crate::keys::{CircuitKey, MadeKey, ProvingKey, UniversalSRS, VerifyingKey};
use crate::laws::{inserted_key_is_found, inserted_key_leaves_the_others};
use crate::names::{Identifier, ProgramID};
use crate::process::{Process, ProcessView};
use crate::program::{Function, ValueType};
use crate::request::{Authorization, CallStack, PrivateKey, Request, Response, Value};
use crate::soundness::{valid_execution, valid_execution_is_verified};
use crate::stack::Stack;
use crate::transition::{Execution, Field, Proof, TransitionValue};
use crate::verify::Checks;

verus! {

/// Nothing is signed and nothing is run for a call that may not be authorized: `authorize` takes
/// functions then that can never be called, and comes to the error that says why.
pub proof fn refused_call_is_not_signed<S, E>(
    process: ProcessView,
    private_key: PrivateKey,
    program_id: ProgramID,
    function_name: Identifier,
    inputs: &[Value],
    sign: S,
    execute: E,
    error: Error,
    answer: Result<Authorization, Error>,
) where
    S: FnOnce(&PrivateKey, &ProgramID, &Identifier, &[Value], &Vec<ValueType>) -> Result<
        Request,
        Error,
    >,
    E: FnOnce(&Stack, CallStack) -> Result<(Response, Authorization), Error>,

    requires
        process.authorizable(program_id, function_name, inputs@.len() as usize) matches Err(reason)
            && reason == error,
    ensures
        process.lets_authorize(private_key, program_id, function_name, inputs, sign, execute),
        process.authorize_outcome(
            private_key,
            program_id,
            function_name,
            inputs,
            sign,
            execute,
            answer,
        ) <==> answer == Err::<Authorization, Error>(error),
{
}

/// Nothing is evaluated for a request that does not fit: `evaluate` takes functions then that can
/// never be called, and comes to the error that says why.
pub proof fn refused_request_is_not_evaluated<V, F, R, T>(
    process: ProcessView,
    request: Request,
    verify: V,
    evaluate: F,
    respond: R,
    trace: T,
    error: Error,
    answer: Result<Response, Error>,
) where
    V: FnOnce(&Request, &Vec<ValueType>) -> bool,
    F: FnOnce(&Stack, &Function, &Vec<Value>) -> Result<Vec<Value>, Error>,
    R: FnOnce(&ProgramID, usize, &Field, Vec<Value>, &Vec<ValueType>) -> Result<Response, Error>,
    T: FnOnce(&Request, &Response) -> Result<(), Error>,

    requires
        process.callee(request.program_id, request.function_name, request.inputs.len()) matches Err(
            reason,
        ) && reason == error,
    ensures
        process.lets_evaluate(request, verify, evaluate, respond, trace),
        process.evaluate_outcome(request, verify, evaluate, respond, trace, answer) <==> answer
            == Err::<Response, Error>(error),
{
}

/// Nothing is run for an authorization that may not be executed: `execute` takes a function then
/// that can never be called, comes to the error that says why, and leaves the process as it was.
pub proof fn refused_authorization_is_not_run<const ID: u16, E>(
    process: Process<ID>,
    authorization: Authorization,
    run: E,
    error: Error,
    answer: Result<(Response, Execution), Error>,
    after: ProcessView,
) where
    E: FnOnce(&Process<ID>, &Stack, CallStack) -> Result<
        (Response, Execution, Vec<MadeKey>),
        Error,
    >,

    requires
        process@.executable(ID, authorization) == Err::<Stack, Error>(error),
    ensures
        process.lets_execute(authorization, run),
        process.execute_outcome(authorization, run, answer, after) <==> (answer == Err::<
            (Response, Execution),
            Error,
        >(error) && after == process@),
{
}

/// Nothing is synthesized for a program that is not in the process: `synthesize_key` takes a
/// function then that can never be called, comes to the error that the stack was not found, and
/// leaves the process as it was.
pub proof fn unknown_program_is_not_synthesized<F>(
    process: ProcessView,
    program_id: ProgramID,
    function_name: Identifier,
    synthesize: F,
    answer: Result<(), Error>,
    after: ProcessView,
) where
    F: FnOnce(&Stack, &Identifier, Option<&UniversalSRS>) -> Result<
        (ProvingKey, VerifyingKey),
        Error,
    >,

    requires
        !process.stacks.contains_key(program_id@),
    ensures
        process.lets_synthesize(program_id, function_name, synthesize),
        process.synthesize_outcome(program_id, function_name, synthesize, answer, after) <==> (
        answer == Err::<(), Error>(Error::StackNotFound(program_id)) && after == process),
{
}

/// Each of the functions that an evaluation calls answers in one way.
pub open spec fn evaluation_steps_are_settled<V, F, R, T>(
    verify: V,
    evaluate: F,
    respond: R,
    trace: T,
) -> bool where
    V: FnOnce(&Request, &Vec<ValueType>) -> bool,
    F: FnOnce(&Stack, &Function, &Vec<Value>) -> Result<Vec<Value>, Error>,
    R: FnOnce(&ProgramID, usize, &Field, Vec<Value>, &Vec<ValueType>) -> Result<Response, Error>,
    T: FnOnce(&Request, &Response) -> Result<(), Error>,
 {
    &&& forall|request: &Request, types: &Vec<ValueType>, one: bool, other: bool| #[trigger]
        call_ensures(verify, (request, types), one) && #[trigger] call_ensures(
            verify,
            (request, types),
            other,
        ) ==> one == other
    &&& forall|
        stack: &Stack,
        function: &Function,
        inputs: &Vec<Value>,
        one: Result<Vec<Value>, Error>,
        other: Result<Vec<Value>, Error>,
    | #[trigger]
        call_ensures(evaluate, (stack, function, inputs), one) && #[trigger] call_ensures(
            evaluate,
            (stack, function, inputs),
            other,
        ) ==> one == other
    &&& forall|
        id: &ProgramID,
        inputs: usize,
        tvk: &Field,
        outputs: Vec<Value>,
        types: &Vec<ValueType>,
        one: Result<Response, Error>,
        other: Result<Response, Error>,
    | #[trigger]
        call_ensures(respond, (id, inputs, tvk, outputs, types), one) && #[trigger] call_ensures(
            respond,
            (id, inputs, tvk, outputs, types),
            other,
        ) ==> one == other
    &&& forall|
        request: &Request,
        response: &Response,
        one: Result<(), Error>,
        other: Result<(), Error>,
    | #[trigger]
        call_ensures(trace, (request, response), one) && #[trigger] call_ensures(
            trace,
            (request, response),
            other,
        ) ==> one == other
}

/// Where each of the functions that it calls answers in one way, evaluating a request again gives
/// the same outputs, or the same error.
pub proof fn evaluation_is_settled<V, F, R, T>(
    process: ProcessView,
    request: Request,
    verify: V,
    evaluate: F,
    respond: R,
    trace: T,
    one: Result<Response, Error>,
    other: Result<Response, Error>,
) where
    V: FnOnce(&Request, &Vec<ValueType>) -> bool,
    F: FnOnce(&Stack, &Function, &Vec<Value>) -> Result<Vec<Value>, Error>,
    R: FnOnce(&ProgramID, usize, &Field, Vec<Value>, &Vec<ValueType>) -> Result<Response, Error>,
    T: FnOnce(&Request, &Response) -> Result<(), Error>,

    requires
        evaluation_steps_are_settled(verify, evaluate, respond, trace),
        process.evaluate_outcome(request, verify, evaluate, respond, trace, one),
        process.evaluate_outcome(request, verify, evaluate, respond, trace, other),
    ensures
        one == other,
{
}

/// A circuit key that executing leaves for a function of the process is found, unless a later one
/// for the same function takes its place.
pub proof fn made_key_is_found(process: ProcessView, made: Seq<MadeKey>, i: int)
    requires
        process.well_formed(),
        0 <= i < made.len(),
        process.program_of(made[i].program_id) is Ok,
        forall|j: int|
            i < j < made.len() ==> (#[trigger] made[j]).program_id@ != made[i].program_id@
                || made[j].function_name@ != made[i].function_name@,
    ensures
        process.with_made(made).key_of(made[i].program_id, made[i].function_name) == Ok::<
            CircuitKey,
            Error,
        >(made[i].key),
    decreases made.len(),
{
    let front = made.drop_last();
    let last = made.last();
    let middle = process.with_made(front);
    process.lemma_with_made(front);
    if i == made.len() - 1 {
        inserted_key_is_found(middle, last.program_id, last.function_name, last.key);
    } else {
        assert forall|j: int| i < j < front.len() implies (#[trigger] front[j]).program_id@
            != front[i].program_id@ || front[j].function_name@ != front[i].function_name@ by {
            assert(front[j] == made[j]);
        }
        made_key_is_found(process, front, i);
        assert(last == made[made.len() - 1]);
        inserted_key_leaves_the_others(
            middle,
            last.program_id,
            last.function_name,
            last.key,
            made[i].program_id,
            made[i].function_name,
        );
    }
}

/// The circuit keys that executing leaves do not change the keys of other functions.
pub proof fn made_keys_leave_the_others(
    process: ProcessView,
    made: Seq<MadeKey>,
    program_id: ProgramID,
    function_name: Identifier,
)
    requires
        process.well_formed(),
        forall|j: int|
            0 <= j < made.len() ==> (#[trigger] made[j]).program_id@ != program_id@
                || made[j].function_name@ != function_name@,
    ensures
        process.with_made(made).key_of(program_id, function_name) == process.key_of(
            program_id,
            function_name,
        ),
    decreases made.len(),
{
    if made.len() > 0 {
        let front = made.drop_last();
        let last = made.last();
        assert forall|j: int| 0 <= j < front.len() implies (#[trigger] front[j]).program_id@
            != program_id@ || front[j].function_name@ != function_name@ by {
            assert(front[j] == made[j]);
        }
        made_keys_leave_the_others(process, front, program_id, function_name);
        process.lemma_with_made(front);
        assert(last == made[made.len() - 1]);
        inserted_key_leaves_the_others(
            process.with_made(front),
            last.program_id,
            last.function_name,
            last.key,
            program_id,
            function_name,
        );
    }
}

/// What is executed is verified in the process that it leaves: where every execution that `run`
/// may return is valid once the circuit keys that it made are kept, so is the one that `execute`
/// returned, and `verify` finds it so.
pub proof fn executed_call_is_verified<const ID: u16, E, V, K, F, C>(
    process: Process<ID>,
    authorization: Authorization,
    run: E,
    checks: Checks<V, K, F, C>,
    response: Response,
    execution: Execution,
    after: ProcessView,
    answer: Result<(), Error>,
) where
    E: FnOnce(&Process<ID>, &Stack, CallStack) -> Result<
        (Response, Execution, Vec<MadeKey>),
        Error,
    >,
    V: Fn(&TransitionValue) -> bool,
    K: Fn(&ProgramID, &Identifier) -> bool,
    F: Fn(i64) -> Result<Field, Error>,
    C: Fn(&VerifyingKey, &Identifier, &Vec<Field>, &Proof) -> bool,

    requires
        forall|ran: (Response, Execution, Vec<MadeKey>)| #[trigger]
            process.may_run(authorization, run, Ok::<_, Error>(ran)) ==> valid_execution(
                process@.with_made(ran.2@),
                ran.1.transitions@,
                checks,
            ),
        process.execute_outcome(
            authorization,
            run,
            Ok::<(Response, Execution), Error>((response, execution)),
            after,
        ),
        after.verify_outcome(execution.transitions@, checks, answer),
    ensures
        answer is Ok,
{
    let ran = lemma_what_was_run(process, authorization, run, response, execution, after);
    valid_execution_is_verified(after, execution.transitions@, checks, answer);
}

/// Where executing succeeds, `run` may have returned the response and the execution, with the
/// circuit keys that it left.
pub proof fn lemma_what_was_run<const ID: u16, E>(
    process: Process<ID>,
    authorization: Authorization,
    run: E,
    response: Response,
    execution: Execution,
    after: ProcessView,
) -> (ran: (Response, Execution, Vec<MadeKey>)) where
    E: FnOnce(&Process<ID>, &Stack, CallStack) -> Result<
        (Response, Execution, Vec<MadeKey>),
        Error,
    >,

    requires
        process.execute_outcome(
            authorization,
            run,
            Ok::<(Response, Execution), Error>((response, execution)),
            after,
        ),
    ensures
        process.may_run(authorization, run, Ok::<_, Error>(ran)),
        ran.0 == response,
        ran.1 == execution,
        after == process@.with_made(ran.2@),
{
    let ran = choose|ran: Result<(Response, Execution, Vec<MadeKey>), Error>| #[trigger]
        process.may_run(authorization, run, ran) && match ran {
            Err(error) => Ok::<(Response, Execution), Error>((response, execution)) == Err::<
                (Response, Execution),
                Error,
            >(error) && after == process@,
            Ok((given, made, keys)) => Ok::<_, Error>((response, execution)) == Ok::<_, Error>(
                (given, made),
            ) && after == process@.with_made(keys@),
        };
    ran->Ok_0
}

} // verus!
