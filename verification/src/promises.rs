//! What an authorization, an evaluation, an execution and a synthesis promise, by what the process
//! holds and what the functions that are handed in may answer.

use vstd::prelude::*;
use crate::error::Error;
use crate::keys::{CircuitKey, MadeKey, ProvingKey, UniversalSRS, VerifyingKey};
use crate::lookups::{defines, functions_are_found_by_name, maps_are_looked_up, stands_at};
use crate::names::{Identifier, ProgramID};
use crate::outcomes::lemma_what_was_run;
use crate::process::{Process, ProcessView};
use crate::program::{Function, Program, ValueType};
use crate::request::{Authorization, CallStack, PrivateKey, Request, Response, Value};
use crate::run::{authorization_of, response_outcome, to_authorize, to_execute};
use crate::stack::Stack;
use crate::transition::{Execution, Field};

verus! {

/// The function at `k` of the program called `program_id` is the one that the name means, and it
/// declares as many types as it has inputs and outputs.
pub open spec fn is_sound_at(
    process: ProcessView,
    program_id: ProgramID,
    function_name: Identifier,
    k: int,
) -> bool {
    &&& process.programs.contains_key(program_id@)
    &&& stands_at(&*process.programs[program_id@], function_name@, k)
    &&& process.programs[program_id@].functions@[k].inputs@.len()
        == process.programs[program_id@].functions@[k].input_types@.len()
    &&& process.programs[program_id@].functions@[k].outputs@.len()
        == process.programs[program_id@].functions@[k].output_types@.len()
}

/// The function at `k` is the one that the call is for, and the call hands over as many inputs as it
/// has input types.
pub open spec fn fits_at(
    process: ProcessView,
    program_id: ProgramID,
    function_name: Identifier,
    inputs: nat,
    k: int,
) -> bool {
    &&& is_sound_at(process, program_id, function_name, k)
    &&& process.programs[program_id@].functions@[k].input_types@.len() == inputs
}

/// There is no sound function of the name in the program called `program_id`, and the error says
/// why.
pub open spec fn is_unsound(
    process: ProcessView,
    program_id: ProgramID,
    function_name: Identifier,
    error: Error,
) -> bool {
    if !process.programs.contains_key(program_id@) {
        error == Error::ProgramNotFound(program_id)
    } else if !defines(&*process.programs[program_id@], function_name@) {
        error == Error::FunctionMissing(function_name, program_id)
    } else {
        exists|k: int| #[trigger]
            stands_at(&*process.programs[program_id@], function_name@, k) && ({
                let found = process.programs[program_id@].functions@[k];
                if found.inputs@.len() != found.input_types@.len() {
                    error == Error::InputTypes {
                        function: function_name,
                        program: program_id,
                        inputs: found.inputs@.len() as usize,
                        types: found.input_types@.len() as usize,
                    }
                } else {
                    found.outputs@.len() != found.output_types@.len() && error
                        == Error::OutputTypes {
                        function: function_name,
                        program: program_id,
                        outputs: found.outputs@.len() as usize,
                        types: found.output_types@.len() as usize,
                    }
                }
            })
    }
}

/// The call is for no sound function, or hands over another number of inputs than that expects, and
/// the error says so.
pub open spec fn does_not_fit(
    process: ProcessView,
    program_id: ProgramID,
    function_name: Identifier,
    inputs: nat,
    error: Error,
) -> bool {
    is_unsound(process, program_id, function_name, error) || exists|k: int| #[trigger]
        is_sound_at(process, program_id, function_name, k) && ({
            let program = process.programs[program_id@];
            let found = program.functions@[k];
            found.input_types@.len() != inputs && error == Error::InputCount {
                function: found.name,
                program: program.id,
                expected: found.input_types@.len() as usize,
                found: inputs as usize,
            }
        })
}

/// What is known of a function is known if and only if it is sound: its program is in the process
/// and defines it, and it declares as many types as it has inputs and outputs.
pub proof fn info_is_of_sound_functions(
    process: ProcessView,
    program_id: ProgramID,
    function_name: Identifier,
)
    ensures
        match process.function_info(program_id, function_name) {
            Ok((program, function)) => program == *process.programs[program_id@] && exists|k: int|
             #[trigger]
                is_sound_at(process, program_id, function_name, k) && function
                    == program.functions@[k],
            Err(error) => is_unsound(process, program_id, function_name, error),
        },
{
    if process.programs.contains_key(program_id@) {
        let program = process.programs[program_id@];
        functions_are_found_by_name(&*program, function_name@);
        if defines(&*program, function_name@) {
            let k = choose|k: int| #[trigger] stands_at(&*program, function_name@, k);
            assert(program.function(function_name@) == program.functions@[k]);
            if process.function_info(program_id, function_name) is Ok {
                assert(is_sound_at(process, program_id, function_name, k));
            }
        }
    }
}

/// A request gets as far as its evaluation if and only if it fits: the program is in the process and
/// defines the function, that is sound, and as many inputs are handed over as it has input types.
pub proof fn calls_that_fit_are_let_through(
    process: ProcessView,
    program_id: ProgramID,
    function_name: Identifier,
    inputs: usize,
)
    ensures
        process.callee(program_id, function_name, inputs) is Ok <==> exists|k: int| #[trigger]
            fits_at(process, program_id, function_name, inputs as nat, k),
        match process.callee(program_id, function_name, inputs) {
            Ok((program, function)) => program == *process.programs[program_id@] && exists|k: int|
             #[trigger]
                fits_at(process, program_id, function_name, inputs as nat, k) && function
                    == program.functions@[k],
            Err(error) => does_not_fit(process, program_id, function_name, inputs as nat, error),
        },
{
    info_is_of_sound_functions(process, program_id, function_name);
    match process.function_info(program_id, function_name) {
        Ok((program, function)) => {
            let k = choose|k: int| #[trigger]
                is_sound_at(process, program_id, function_name, k) && function
                    == program.functions@[k];
            if function.input_types.len() == inputs {
                assert(fits_at(process, program_id, function_name, inputs as nat, k));
            } else {
                assert forall|m: int| #[trigger]
                    fits_at(process, program_id, function_name, inputs as nat, m) implies false by {
                    lemma_one_place(&*process.programs[program_id@], function_name@, k, m);
                }
            }
        },
        Err(error) => {
            assert forall|m: int| #[trigger]
                fits_at(process, program_id, function_name, inputs as nat, m) implies false by {
                let program = process.programs[program_id@];
                assert(program.functions@[m].name@ == function_name@);
                let k = choose|k: int| #[trigger]
                    stands_at(&*program, function_name@, k) && ({
                        let found = program.functions@[k];
                        if found.inputs@.len() != found.input_types@.len() {
                            error == Error::InputTypes {
                                function: function_name,
                                program: program_id,
                                inputs: found.inputs@.len() as usize,
                                types: found.input_types@.len() as usize,
                            }
                        } else {
                            found.outputs@.len() != found.output_types@.len() && error
                                == Error::OutputTypes {
                                function: function_name,
                                program: program_id,
                                outputs: found.outputs@.len() as usize,
                                types: found.output_types@.len() as usize,
                            }
                        }
                    });
                lemma_one_place(&*program, function_name@, k, m);
            }
        },
    }
}

/// A name means one function.
proof fn lemma_one_place(program: &Program, name: Seq<char>, k: int, m: int)
    requires
        stands_at(program, name, k),
        stands_at(program, name, m),
    ensures
        k == m,
{
    if m < k {
        assert(program.functions@[m].name@ != name);
    } else if k < m {
        assert(program.functions@[k].name@ != name);
    }
}

/// A call may be authorized if and only if it fits. A program that is not in the process is said to
/// be missing, and every other misfit is told as it is for a request.
pub proof fn calls_that_fit_are_authorized(
    process: ProcessView,
    program_id: ProgramID,
    function_name: Identifier,
    inputs: usize,
)
    ensures
        process.authorizable(program_id, function_name, inputs) is Ok <==> exists|k: int| #[trigger]
            fits_at(process, program_id, function_name, inputs as nat, k),
        match process.authorizable(program_id, function_name, inputs) {
            Ok((program, function)) => program == *process.programs[program_id@] && exists|k: int|
             #[trigger]
                fits_at(process, program_id, function_name, inputs as nat, k) && function
                    == program.functions@[k],
            Err(error) => if process.programs.contains_key(program_id@) {
                does_not_fit(process, program_id, function_name, inputs as nat, error)
            } else {
                error == Error::ProgramMissing(program_id)
            },
        },
{
    calls_that_fit_are_let_through(process, program_id, function_name, inputs);
}

/// Two requests say the same.
pub open spec fn same_request(one: Request, other: Request) -> bool {
    &&& one.network_id == other.network_id
    &&& one.program_id@ == other.program_id@
    &&& one.function_name@ == other.function_name@
    &&& one.inputs@ == other.inputs@
    &&& one.tvk == other.tvk
    &&& one.signature@ == other.signature@
}

/// The call stack holds the signed request and nothing else, the private key, and an authorization
/// that holds the signed request and nothing else.
pub open spec fn holds_request(
    call_stack: CallStack,
    request: Request,
    private_key: PrivateKey,
) -> bool {
    call_stack matches CallStack::Authorize(requests, key, authorization) && {
        &&& requests@.len() == 1
        &&& same_request(requests@[0], request)
        &&& key == private_key
        &&& authorization.requests@.len() == 1
        &&& same_request(authorization.requests@[0], request)
    }
}

/// Running the signed request on the stack may come to `ran`.
pub open spec fn may_come_to<E>(
    stack: Stack,
    request: Request,
    private_key: PrivateKey,
    execute: E,
    ran: Result<(Response, Authorization), Error>,
) -> bool where E: FnOnce(&Stack, CallStack) -> Result<(Response, Authorization), Error> {
    exists|call_stack: CallStack| #[trigger]
        call_ensures(execute, (&stack, call_stack), ran) && holds_request(
            call_stack,
            request,
            private_key,
        )
}

/// A request that is signed is run on the stack of the program that it is signed for, and what that
/// leaves is returned, or the error that it comes to. Without that stack, the error says so.
pub proof fn signed_request_is_run<E>(
    process: ProcessView,
    program_id: ProgramID,
    private_key: PrivateKey,
    request: Request,
    execute: E,
    answer: Result<Authorization, Error>,
) where E: FnOnce(&Stack, CallStack) -> Result<(Response, Authorization), Error>
    requires
        process.signed_outcome(program_id, private_key, request, execute, answer),
    ensures
        if !process.stacks.contains_key(program_id@) {
            answer == Err::<Authorization, Error>(Error::StackNotFound(program_id))
        } else {
            match answer {
                Ok(authorization) => exists|response: Response| #[trigger]
                    may_come_to(
                        process.stacks[program_id@],
                        request,
                        private_key,
                        execute,
                        Ok::<_, Error>((response, authorization)),
                    ),
                Err(error) => may_come_to(
                    process.stacks[program_id@],
                    request,
                    private_key,
                    execute,
                    Err::<(Response, Authorization), Error>(error),
                ),
            }
        },
{
    if process.stacks.contains_key(program_id@) {
        let stack = process.stacks[program_id@];
        let (call_stack, ran) = choose|
            call_stack: CallStack,
            ran: Result<(Response, Authorization), Error>,
        | #[trigger]
            call_ensures(execute, (&stack, call_stack), ran) && to_authorize(
                call_stack,
                request,
                private_key,
            ) && answer == authorization_of(ran);
        assert(holds_request(call_stack, request, private_key));
        assert(may_come_to(stack, request, private_key, execute, ran));
        if let Ok(authorization) = answer {
            assert(ran == Ok::<(Response, Authorization), Error>((ran->Ok_0.0, authorization)));
        }
    }
}

/// An authorization is returned only for a call that fits, and it is the one that running the signed
/// request left. It fails only where the call does not fit, where signing it may fail, or where
/// running the signed request may, and with that error.
pub proof fn authorization_keeps_its_promise<S, E>(
    process: ProcessView,
    private_key: PrivateKey,
    program_id: ProgramID,
    function_name: Identifier,
    inputs: &[Value],
    sign: S,
    execute: E,
    answer: Result<Authorization, Error>,
) where
    S: FnOnce(&PrivateKey, &ProgramID, &Identifier, &[Value], &Vec<ValueType>) -> Result<
        Request,
        Error,
    >,
    E: FnOnce(&Stack, CallStack) -> Result<(Response, Authorization), Error>,

    requires
        process.well_formed(),
        process.authorize_outcome(
            private_key,
            program_id,
            function_name,
            inputs,
            sign,
            execute,
            answer,
        ),
    ensures
        (exists|k: int| #[trigger]
            fits_at(process, program_id, function_name, inputs@.len(), k) && ({
                let program = process.programs[program_id@];
                let found = program.functions@[k];
                exists|signed: Result<Request, Error>| #[trigger]
                    call_ensures(
                        sign,
                        (&private_key, &program.id, &found.name, inputs, &found.input_types),
                        signed,
                    ) && match (signed, answer) {
                        (Err(one), Err(other)) => one == other,
                        (Err(_), Ok(_)) => false,
                        (Ok(request), Ok(authorization)) => exists|response: Response| #[trigger]
                            may_come_to(
                                process.stacks[program_id@],
                                request,
                                private_key,
                                execute,
                                Ok::<_, Error>((response, authorization)),
                            ),
                        (Ok(request), Err(error)) => may_come_to(
                            process.stacks[program_id@],
                            request,
                            private_key,
                            execute,
                            Err::<(Response, Authorization), Error>(error),
                        ),
                    }
            })) || (answer matches Err(error) && (forall|k: int|
            !(#[trigger] fits_at(process, program_id, function_name, inputs@.len(), k))) && (
        if process.programs.contains_key(program_id@) {
            does_not_fit(process, program_id, function_name, inputs@.len(), error)
        } else {
            error == Error::ProgramMissing(program_id)
        })),
{
    let count = inputs@.len() as usize;
    assert(inputs.len() == inputs@.len());
    calls_that_fit_are_authorized(process, program_id, function_name, count);
    if let Ok((program, function)) = process.authorizable(program_id, function_name, count) {
        let k = choose|k: int| #[trigger]
            fits_at(process, program_id, function_name, count as nat, k) && function
                == program.functions@[k];
        maps_are_looked_up(process, program_id, function_name);
        assert(process.stack_fits(program_id@));
        assert(program.id@ == program_id@);
        let signed = choose|signed: Result<Request, Error>| #[trigger]
            call_ensures(
                sign,
                (&private_key, &program.id, &function.name, inputs, &function.input_types),
                signed,
            ) && match signed {
                Err(error) => answer == Err::<Authorization, Error>(error),
                Ok(request) => process.signed_outcome(
                    program.id,
                    private_key,
                    request,
                    execute,
                    answer,
                ),
            };
        if let Ok(request) = signed {
            signed_request_is_run(process, program.id, private_key, request, execute, answer);
        }
        assert(fits_at(process, program_id, function_name, inputs@.len(), k));
        assert(*process.programs[program_id@] == program);
        let place = process.programs[program_id@].functions@[k];
        assert(call_ensures(
            sign,
            (
                &private_key,
                &process.programs[program_id@].id,
                &place.name,
                inputs,
                &place.input_types,
            ),
            signed,
        ));
    }
}

/// An authorization may be executed if and only if it holds a request, the first of which is for this
/// network and for a function that a program of the process defines. Each error says which of these
/// fails first: that there is a request, that the program is there, the network, the function.
pub proof fn authorizations_are_executed_on_their_network(
    process: ProcessView,
    network_id: u16,
    authorization: Authorization,
)
    requires
        process.well_formed(),
    ensures
        ({
            let request = authorization.requests@[0];
            let id = request.program_id@;
            match process.executable(network_id, authorization) {
                Ok(stack) => {
                    &&& authorization.requests@.len() > 0
                    &&& request.network_id == network_id
                    &&& process.programs.contains_key(id)
                    &&& defines(&*process.programs[id], request.function_name@)
                    &&& stack == process.stacks[id]
                },
                Err(error) => if authorization.requests@.len() == 0 {
                    error == Error::NoRequest
                } else if !process.programs.contains_key(id) {
                    error == Error::StackNotFound(request.program_id)
                } else if request.network_id != network_id {
                    error == Error::NetworkMismatch {
                        network: network_id,
                        requested: request.network_id,
                    }
                } else {
                    &&& !defines(&*process.programs[id], request.function_name@)
                    &&& error == Error::FunctionAbsent(request.function_name)
                },
            }
        }),
{
    if authorization.requests@.len() > 0 {
        let request = authorization.requests@[0];
        maps_are_looked_up(process, request.program_id, request.function_name);
        if process.stacks.contains_key(request.program_id@) {
            assert(process.stack_fits(request.program_id@));
            functions_are_found_by_name(
                &*process.programs[request.program_id@],
                request.function_name@,
            );
        }
    }
}

/// What is run on the process, to execute the authorization, may come to `ran`: on the stack of the
/// program that the first request is for, with the whole authorization, and without transitions.
pub open spec fn run_may_come_to<const ID: u16, E>(
    process: Process<ID>,
    authorization: Authorization,
    run: E,
    ran: Result<(Response, Execution, Vec<MadeKey>), Error>,
) -> bool where
    E: FnOnce(&Process<ID>, &Stack, CallStack) -> Result<
        (Response, Execution, Vec<MadeKey>),
        Error,
    >,
 {
    exists|call_stack: CallStack| #[trigger]
        call_ensures(
            run,
            (
                &process,
                &process@.stacks[authorization.requests@[0].program_id@],
                call_stack,
            ),
            ran,
        ) && (call_stack matches CallStack::Execute(given, begun) && given == authorization
            && begun.transitions@.len() == 0)
}

/// An execution is returned only for an authorization whose first request is for this network and
/// for a function of the process, and it is the one that was run, whose circuit keys are kept. It
/// fails only where the authorization is not such, or where running it may fail, and with that
/// error, and leaves the process as it was.
pub proof fn execution_keeps_its_promise<const ID: u16, E>(
    process: Process<ID>,
    authorization: Authorization,
    run: E,
    answer: Result<(Response, Execution), Error>,
    after: ProcessView,
) where
    E: FnOnce(&Process<ID>, &Stack, CallStack) -> Result<
        (Response, Execution, Vec<MadeKey>),
        Error,
    >,

    requires
        process@.well_formed(),
        process.execute_outcome(authorization, run, answer, after),
    ensures
        ({
            let request = authorization.requests@[0];
            let id = request.program_id@;
            let allowed = authorization.requests@.len() > 0 && request.network_id == ID
                && process@.programs.contains_key(id) && defines(
                &*process@.programs[id],
                request.function_name@,
            );
            match answer {
                Ok((response, execution)) => allowed && exists|made: Vec<MadeKey>| #[trigger]
                    run_may_come_to(
                        process,
                        authorization,
                        run,
                        Ok::<_, Error>((response, execution, made)),
                    ) && after == process@.with_made(made@),
                Err(error) => after == process@ && if allowed {
                    run_may_come_to(
                        process,
                        authorization,
                        run,
                        Err::<(Response, Execution, Vec<MadeKey>), Error>(error),
                    )
                } else if authorization.requests@.len() == 0 {
                    error == Error::NoRequest
                } else if !process@.programs.contains_key(id) {
                    error == Error::StackNotFound(request.program_id)
                } else if request.network_id != ID {
                    error == Error::NetworkMismatch { network: ID, requested: request.network_id }
                } else {
                    error == Error::FunctionAbsent(request.function_name)
                },
            }
        }),
{
    authorizations_are_executed_on_their_network(process@, ID, authorization);
    if process@.executable(ID, authorization) is Ok {
        match answer {
            Ok((response, execution)) => {
                let ran = lemma_what_was_run(
                    process,
                    authorization,
                    run,
                    response,
                    execution,
                    after,
                );
                lemma_run(process, authorization, run, Ok::<_, Error>(ran));
                assert(run_may_come_to(
                    process,
                    authorization,
                    run,
                    Ok::<_, Error>((response, execution, ran.2)),
                ));
            },
            Err(error) => {
                let ran = Err::<(Response, Execution, Vec<MadeKey>), Error>(error);
                assert(process.may_run(authorization, run, ran));
                lemma_run(process, authorization, run, ran);
            },
        }
    }
}

proof fn lemma_run<const ID: u16, E>(
    process: Process<ID>,
    authorization: Authorization,
    run: E,
    ran: Result<(Response, Execution, Vec<MadeKey>), Error>,
) where
    E: FnOnce(&Process<ID>, &Stack, CallStack) -> Result<
        (Response, Execution, Vec<MadeKey>),
        Error,
    >,

    requires
        process@.well_formed(),
        process.may_run(authorization, run, ran),
    ensures
        run_may_come_to(process, authorization, run, ran),
{
    authorizations_are_executed_on_their_network(process@, ID, authorization);
    let (stack, call_stack) = choose|stack: &Stack, call_stack: CallStack|
        process@.executable(ID, authorization) == Ok::<Stack, Error>(*stack) && to_execute(
            call_stack,
            authorization,
        ) && #[trigger] call_ensures(run, (&process, stack, call_stack), ran);
    let known = process@.stacks[authorization.requests@[0].program_id@];
    assert(*stack == known);
    assert(call_ensures(run, (&process, &known, call_stack), ran));
}

/// Evaluating the function on the inputs of the request may come to the outputs.
pub open spec fn outputs_may_be<F>(
    process: ProcessView,
    request: Request,
    k: int,
    evaluate: F,
    outputs: Result<Vec<Value>, Error>,
) -> bool where F: FnOnce(&Stack, &Function, &Vec<Value>) -> Result<Vec<Value>, Error> {
    call_ensures(
        evaluate,
        (
            &process.stacks[request.program_id@],
            &process.programs[request.program_id@].functions@[k],
            &request.inputs,
        ),
        outputs,
    )
}

/// Responding with the outputs may come to the response.
pub open spec fn response_may_be<R>(
    process: ProcessView,
    request: Request,
    k: int,
    respond: R,
    outputs: Vec<Value>,
    response: Result<Response, Error>,
) -> bool where
    R: FnOnce(&ProgramID, usize, &Field, Vec<Value>, &Vec<ValueType>) -> Result<Response, Error>,
 {
    let program = process.programs[request.program_id@];
    call_ensures(
        respond,
        (
            &program.id,
            request.inputs.len(),
            &request.tvk,
            outputs,
            &program.functions@[k].output_types,
        ),
        response,
    )
}

/// A response is returned only to a request that fits and may be found valid, and it is one that may
/// be given for outputs that the function may have on the inputs of the request, and that may be
/// traced.
pub proof fn response_is_to_the_request<V, F, R, T>(
    process: ProcessView,
    request: Request,
    verify: V,
    evaluate: F,
    respond: R,
    trace: T,
    response: Response,
) where
    V: FnOnce(&Request, &Vec<ValueType>) -> bool,
    F: FnOnce(&Stack, &Function, &Vec<Value>) -> Result<Vec<Value>, Error>,
    R: FnOnce(&ProgramID, usize, &Field, Vec<Value>, &Vec<ValueType>) -> Result<Response, Error>,
    T: FnOnce(&Request, &Response) -> Result<(), Error>,

    requires
        process.well_formed(),
        process.evaluate_outcome(
            request,
            verify,
            evaluate,
            respond,
            trace,
            Ok::<Response, Error>(response),
        ),
    ensures
        exists|k: int| #[trigger]
            fits_at(process, request.program_id, request.function_name, request.inputs@.len(), k)
                && call_ensures(
                verify,
                (&request, &process.programs[request.program_id@].functions@[k].input_types),
                true,
            ) && (exists|outputs: Vec<Value>| #[trigger]
                outputs_may_be(process, request, k, evaluate, Ok::<Vec<Value>, Error>(outputs))
                    && response_may_be(
                    process,
                    request,
                    k,
                    respond,
                    outputs,
                    Ok::<Response, Error>(response),
                )) && call_ensures(trace, (&request, &response), Ok::<(), Error>(())),
{
    lemma_evaluation(
        process,
        request,
        verify,
        evaluate,
        respond,
        trace,
        Ok::<Response, Error>(response),
    );
}

/// An evaluation fails only where the request does not fit, where it may be found invalid, or where
/// evaluating, responding or tracing may fail, and with that error. So where none of these may be,
/// it gives a response, and [`Error::InvalidRequest`] is answered to a request that fits only where
/// that may be found invalid, or where one of the functions gave that error.
pub proof fn evaluation_fails_for_a_reason<V, F, R, T>(
    process: ProcessView,
    request: Request,
    verify: V,
    evaluate: F,
    respond: R,
    trace: T,
    error: Error,
) where
    V: FnOnce(&Request, &Vec<ValueType>) -> bool,
    F: FnOnce(&Stack, &Function, &Vec<Value>) -> Result<Vec<Value>, Error>,
    R: FnOnce(&ProgramID, usize, &Field, Vec<Value>, &Vec<ValueType>) -> Result<Response, Error>,
    T: FnOnce(&Request, &Response) -> Result<(), Error>,

    requires
        process.well_formed(),
        process.evaluate_outcome(
            request,
            verify,
            evaluate,
            respond,
            trace,
            Err::<Response, Error>(error),
        ),
    ensures
        does_not_fit(
            process,
            request.program_id,
            request.function_name,
            request.inputs@.len(),
            error,
        ) || exists|k: int| #[trigger]
            fits_at(process, request.program_id, request.function_name, request.inputs@.len(), k)
                && fails_in_a_step(
                process,
                request,
                k,
                verify,
                evaluate,
                respond,
                trace,
                error,
            ),
{
    lemma_evaluation(
        process,
        request,
        verify,
        evaluate,
        respond,
        trace,
        Err::<Response, Error>(error),
    );
}

/// A request that fits, that can only be found valid, and for which evaluating, responding and tracing
/// can only succeed, is answered: with a response that may be given for outputs that the function
/// may have on the inputs of the request.
pub proof fn valid_request_is_answered<V, F, R, T>(
    process: ProcessView,
    request: Request,
    k: int,
    verify: V,
    evaluate: F,
    respond: R,
    trace: T,
    answer: Result<Response, Error>,
) where
    V: FnOnce(&Request, &Vec<ValueType>) -> bool,
    F: FnOnce(&Stack, &Function, &Vec<Value>) -> Result<Vec<Value>, Error>,
    R: FnOnce(&ProgramID, usize, &Field, Vec<Value>, &Vec<ValueType>) -> Result<Response, Error>,
    T: FnOnce(&Request, &Response) -> Result<(), Error>,

    requires
        process.well_formed(),
        fits_at(process, request.program_id, request.function_name, request.inputs@.len(), k),
        !call_ensures(
            verify,
            (&request, &process.programs[request.program_id@].functions@[k].input_types),
            false,
        ),
        forall|error: Error|
            !(#[trigger] outputs_may_be(
                process,
                request,
                k,
                evaluate,
                Err::<Vec<Value>, Error>(error),
            )),
        forall|outputs: Vec<Value>, error: Error|
            !(#[trigger] response_may_be(
                process,
                request,
                k,
                respond,
                outputs,
                Err::<Response, Error>(error),
            )),
        forall|response: Response, error: Error|
            !(#[trigger] call_ensures(trace, (&request, &response), Err::<(), Error>(error))),
        process.evaluate_outcome(request, verify, evaluate, respond, trace, answer),
    ensures
        answer matches Ok(response) && exists|outputs: Vec<Value>| #[trigger]
            outputs_may_be(process, request, k, evaluate, Ok::<Vec<Value>, Error>(outputs))
                && response_may_be(
                process,
                request,
                k,
                respond,
                outputs,
                Ok::<Response, Error>(response),
            ),
{
    let program = process.programs[request.program_id@];
    lemma_evaluation(process, request, verify, evaluate, respond, trace, answer);
    assert forall|m: int| #[trigger]
        fits_at(
            process,
            request.program_id,
            request.function_name,
            request.inputs@.len(),
            m,
        ) implies m == k by {
        lemma_one_place(&*program, request.function_name@, k, m);
    }
    calls_that_fit_are_let_through(
        process,
        request.program_id,
        request.function_name,
        request.inputs.len(),
    );
    if let Err(error) = answer {
        lemma_fit_or_not(
            process,
            request.program_id,
            request.function_name,
            request.inputs@.len(),
            k,
            error,
        );
    }
}

/// A call that fits is no misfit.
proof fn lemma_fit_or_not(
    process: ProcessView,
    program_id: ProgramID,
    function_name: Identifier,
    inputs: nat,
    k: int,
    error: Error,
)
    requires
        fits_at(process, program_id, function_name, inputs, k),
    ensures
        !does_not_fit(process, program_id, function_name, inputs, error),
{
    let program = process.programs[program_id@];
    assert(program.functions@[k].name@ == function_name@);
    assert(defines(&*program, function_name@));
    assert forall|m: int| #[trigger] stands_at(&*program, function_name@, m) implies m == k by {
        lemma_one_place(&*program, function_name@, k, m);
    }
    assert forall|m: int| #[trigger]
        is_sound_at(process, program_id, function_name, m) implies m == k by {
        assert(stands_at(&*program, function_name@, m));
    }
}

/// One of the steps of the evaluation may fail with the error, where those before it may succeed.
pub open spec fn fails_in_a_step<V, F, R, T>(
    process: ProcessView,
    request: Request,
    k: int,
    verify: V,
    evaluate: F,
    respond: R,
    trace: T,
    error: Error,
) -> bool where
    V: FnOnce(&Request, &Vec<ValueType>) -> bool,
    F: FnOnce(&Stack, &Function, &Vec<Value>) -> Result<Vec<Value>, Error>,
    R: FnOnce(&ProgramID, usize, &Field, Vec<Value>, &Vec<ValueType>) -> Result<Response, Error>,
    T: FnOnce(&Request, &Response) -> Result<(), Error>,
 {
    let types = process.programs[request.program_id@].functions@[k].input_types;
    ||| call_ensures(verify, (&request, &types), false) && error == Error::InvalidRequest
    ||| call_ensures(verify, (&request, &types), true) && outputs_may_be(
        process,
        request,
        k,
        evaluate,
        Err::<Vec<Value>, Error>(error),
    )
    ||| call_ensures(verify, (&request, &types), true) && exists|outputs: Vec<Value>| #[trigger]
        outputs_may_be(process, request, k, evaluate, Ok::<Vec<Value>, Error>(outputs))
            && response_may_be(
            process,
            request,
            k,
            respond,
            outputs,
            Err::<Response, Error>(error),
        )
    ||| call_ensures(verify, (&request, &types), true) && exists|
        outputs: Vec<Value>,
        response: Response,
    |
        #![trigger response_may_be(process, request, k, respond, outputs, Ok::<Response, Error>(response))]
        outputs_may_be(process, request, k, evaluate, Ok::<Vec<Value>, Error>(outputs))
            && response_may_be(
            process,
            request,
            k,
            respond,
            outputs,
            Ok::<Response, Error>(response),
        ) && call_ensures(trace, (&request, &response), Err::<(), Error>(error))
}

proof fn lemma_evaluation<V, F, R, T>(
    process: ProcessView,
    request: Request,
    verify: V,
    evaluate: F,
    respond: R,
    trace: T,
    answer: Result<Response, Error>,
) where
    V: FnOnce(&Request, &Vec<ValueType>) -> bool,
    F: FnOnce(&Stack, &Function, &Vec<Value>) -> Result<Vec<Value>, Error>,
    R: FnOnce(&ProgramID, usize, &Field, Vec<Value>, &Vec<ValueType>) -> Result<Response, Error>,
    T: FnOnce(&Request, &Response) -> Result<(), Error>,

    requires
        process.well_formed(),
        process.evaluate_outcome(request, verify, evaluate, respond, trace, answer),
    ensures
        match answer {
            Ok(response) => exists|k: int| #[trigger]
                fits_at(
                    process,
                    request.program_id,
                    request.function_name,
                    request.inputs@.len(),
                    k,
                ) && call_ensures(
                    verify,
                    (&request, &process.programs[request.program_id@].functions@[k].input_types),
                    true,
                ) && (exists|outputs: Vec<Value>| #[trigger]
                    outputs_may_be(process, request, k, evaluate, Ok::<Vec<Value>, Error>(outputs))
                        && response_may_be(
                        process,
                        request,
                        k,
                        respond,
                        outputs,
                        Ok::<Response, Error>(response),
                    )) && call_ensures(trace, (&request, &response), Ok::<(), Error>(())),
            Err(error) => does_not_fit(
                process,
                request.program_id,
                request.function_name,
                request.inputs@.len(),
                error,
            ) || exists|k: int| #[trigger]
                fits_at(
                    process,
                    request.program_id,
                    request.function_name,
                    request.inputs@.len(),
                    k,
                ) && fails_in_a_step(
                    process,
                    request,
                    k,
                    verify,
                    evaluate,
                    respond,
                    trace,
                    error,
                ),
        },
{
    let id = request.program_id;
    calls_that_fit_are_let_through(process, id, request.function_name, request.inputs.len());
    if let Ok((program, function)) = process.callee(
        id,
        request.function_name,
        request.inputs.len(),
    ) {
        let k = choose|k: int| #[trigger]
            fits_at(process, id, request.function_name, request.inputs.len() as nat, k)
                && function == program.functions@[k];
        maps_are_looked_up(process, id, request.function_name);
        assert(process.stack_fits(id@));
        assert(program.id@ == id@);
        let stack = process.stacks[id@];
        assert(process.stack_of(program.id) == Ok::<Stack, Error>(stack));
        assert(*process.programs[id@] == program);
        assert(fits_at(process, id, request.function_name, request.inputs@.len(), k));
        let valid = choose|valid: bool| #[trigger]
            call_ensures(verify, (&request, &function.input_types), valid) && if valid {
                process.verified_outcome(
                    request,
                    program,
                    function,
                    evaluate,
                    respond,
                    trace,
                    answer,
                )
            } else {
                answer == Err::<Response, Error>(Error::InvalidRequest)
            };
        if valid {
            let outputs = choose|outputs: Result<Vec<Value>, Error>| #[trigger]
                call_ensures(evaluate, (&stack, &function, &request.inputs), outputs)
                    && match outputs {
                    Err(error) => answer == Err::<Response, Error>(error),
                    Ok(outputs) => response_outcome(
                        request,
                        program,
                        function,
                        outputs,
                        respond,
                        trace,
                        answer,
                    ),
                };
            assert(outputs_may_be(process, request, k, evaluate, outputs));
            if let Ok(values) = outputs {
                let response = choose|response: Result<Response, Error>| #[trigger]
                    call_ensures(
                        respond,
                        (
                            &program.id,
                            request.inputs.len(),
                            &request.tvk,
                            values,
                            &function.output_types,
                        ),
                        response,
                    ) && match response {
                        Err(error) => answer == Err::<Response, Error>(error),
                        Ok(response) => exists|traced: Result<(), Error>| #[trigger]
                            call_ensures(trace, (&request, &response), traced) && match traced {
                                Err(error) => answer == Err::<Response, Error>(error),
                                Ok(()) => answer == Ok::<Response, Error>(response),
                            },
                    };
                assert(response_may_be(process, request, k, respond, values, response));
                if let Ok(given) = response {
                    let traced = choose|traced: Result<(), Error>| #[trigger]
                        call_ensures(trace, (&request, &given), traced) && match traced {
                            Err(error) => answer == Err::<Response, Error>(error),
                            Ok(()) => answer == Ok::<Response, Error>(given),
                        };
                    if traced is Ok {
                        assert(answer == Ok::<Response, Error>(given));
                        assert(outputs_may_be(
                            process,
                            request,
                            k,
                            evaluate,
                            Ok::<Vec<Value>, Error>(values),
                        ));
                        assert(response_may_be(
                            process,
                            request,
                            k,
                            respond,
                            values,
                            Ok::<Response, Error>(given),
                        ));
                        assert(call_ensures(
                            verify,
                            (
                                &request,
                                &process.programs[request.program_id@].functions@[k].input_types,
                            ),
                            true,
                        ));
                        assert(traced->Ok_0 == ());
                        assert(traced == Ok::<(), Error>(()));
                        assert(call_ensures(trace, (&request, &given), Ok::<(), Error>(())));
                    }
                }
            }
        }
    }
}

/// A synthesis succeeds only for a program of the process, and the circuit key that is then held for
/// the function is the one that was made from the stack of that program, under the name of the
/// function, and from the reference string of the process. It fails only where the program is not in
/// the process, or where making the key may, and with that error, and leaves the process as it was.
pub proof fn synthesis_keeps_its_promise<F>(
    process: ProcessView,
    program_id: ProgramID,
    function_name: Identifier,
    synthesize: F,
    answer: Result<(), Error>,
    after: ProcessView,
) where
    F: FnOnce(&Stack, &Identifier, Option<&UniversalSRS>) -> Result<
        (ProvingKey, VerifyingKey),
        Error,
    >,

    requires
        process.synthesize_outcome(program_id, function_name, synthesize, answer, after),
    ensures
        after.programs == process.programs,
        after.stacks == process.stacks,
        after.universal_srs == process.universal_srs,
        after.call_depth == process.call_depth,
        !process.stacks.contains_key(program_id@) ==> answer == Err::<(), Error>(
            Error::StackNotFound(program_id),
        ) && after.keys == process.keys,
        process.stacks.contains_key(program_id@) ==> exists|
            srs: Option<&UniversalSRS>,
            made: Result<(ProvingKey, VerifyingKey), Error>,
        | #[trigger]
            call_ensures(
                synthesize,
                (&process.stacks[program_id@], &function_name, srs),
                made,
            ) && (match process.universal_srs {
                None => srs is None,
                Some(kept) => srs matches Some(given) && *given == kept,
            }) && match (made, answer) {
                (Ok(keys), Ok(())) => after.keys == process.keys.insert(
                    (program_id@, function_name@),
                    (CircuitKey { proving_key: keys.0, verifying_key: keys.1 }),
                ),
                (Err(one), Err(other)) => one == other && after.keys == process.keys,
                _ => false,
            },
{
    if process.stacks.contains_key(program_id@) {
        let stack = process.stacks[program_id@];
        let (srs, made) = choose|
            srs: Option<&UniversalSRS>,
            made: Result<(ProvingKey, VerifyingKey), Error>,
        | #[trigger]
            call_ensures(synthesize, (&stack, &function_name, srs), made)
                && process.universal_srs_is(srs) && match made {
                Err(error) => answer == Err::<(), Error>(error) && after == process,
                Ok(keys) => answer == Ok::<(), Error>(()) && after == process.with_key(
                    program_id@,
                    function_name@,
                    CircuitKey { proving_key: keys.0, verifying_key: keys.1 },
                ),
            };
        assert(call_ensures(
            synthesize,
            (&process.stacks[program_id@], &function_name, srs),
            made,
        ));
    }
}

/// Functions that can be called on everything can be handed to `authorize`, whatever the call.
pub proof fn every_call_can_be_asked_for<S, E>(
    process: ProcessView,
    private_key: PrivateKey,
    program_id: ProgramID,
    function_name: Identifier,
    inputs: &[Value],
    request: Request,
    sign: S,
    execute: E,
) where
    S: FnOnce(&PrivateKey, &ProgramID, &Identifier, &[Value], &Vec<ValueType>) -> Result<
        Request,
        Error,
    >,
    E: FnOnce(&Stack, CallStack) -> Result<(Response, Authorization), Error>,

    requires
        forall|
            key: &PrivateKey,
            id: &ProgramID,
            name: &Identifier,
            values: &[Value],
            types: &Vec<ValueType>,
        |
            call_requires(sign, (key, id, name, values, types)),
        forall|stack: &Stack, call_stack: CallStack| call_requires(execute, (stack, call_stack)),
    ensures
        process.lets_authorize(private_key, program_id, function_name, inputs, sign, execute),
        process.lets_run(program_id, private_key, request, execute),
{
}

/// Nothing is run where signing can only fail: `authorize` takes a function to run then that can never
/// be called.
pub proof fn unsigned_call_is_not_run<S, E>(
    process: ProcessView,
    private_key: PrivateKey,
    program_id: ProgramID,
    function_name: Identifier,
    inputs: &[Value],
    sign: S,
    execute: E,
) where
    S: FnOnce(&PrivateKey, &ProgramID, &Identifier, &[Value], &Vec<ValueType>) -> Result<
        Request,
        Error,
    >,
    E: FnOnce(&Stack, CallStack) -> Result<(Response, Authorization), Error>,

    requires
        forall|
            key: &PrivateKey,
            id: &ProgramID,
            name: &Identifier,
            values: &[Value],
            types: &Vec<ValueType>,
        |
            call_requires(sign, (key, id, name, values, types)),
        forall|
            key: &PrivateKey,
            id: &ProgramID,
            name: &Identifier,
            values: &[Value],
            types: &Vec<ValueType>,
            request: Request,
        |
            !(#[trigger] call_ensures(
                sign,
                (key, id, name, values, types),
                Ok::<Request, Error>(request),
            )),
    ensures
        process.lets_authorize(private_key, program_id, function_name, inputs, sign, execute),
{
}

/// Nothing is evaluated where a request can only be found invalid: `evaluate` takes functions for the
/// later steps then that can never be called.
pub proof fn invalid_request_is_not_evaluated<V, F, R, T>(
    process: ProcessView,
    request: Request,
    verify: V,
    evaluate: F,
    respond: R,
    trace: T,
) where
    V: FnOnce(&Request, &Vec<ValueType>) -> bool,
    F: FnOnce(&Stack, &Function, &Vec<Value>) -> Result<Vec<Value>, Error>,
    R: FnOnce(&ProgramID, usize, &Field, Vec<Value>, &Vec<ValueType>) -> Result<Response, Error>,
    T: FnOnce(&Request, &Response) -> Result<(), Error>,

    requires
        forall|types: &Vec<ValueType>| call_requires(verify, (&request, types)),
        forall|types: &Vec<ValueType>|
            !(#[trigger] call_ensures(verify, (&request, types), true)),
    ensures
        process.lets_evaluate(request, verify, evaluate, respond, trace),
{
}

/// Functions that can be called on everything can be handed to `evaluate`, whatever the request.
pub proof fn every_request_can_be_asked_for<V, F, R, T>(
    process: ProcessView,
    request: Request,
    verify: V,
    evaluate: F,
    respond: R,
    trace: T,
) where
    V: FnOnce(&Request, &Vec<ValueType>) -> bool,
    F: FnOnce(&Stack, &Function, &Vec<Value>) -> Result<Vec<Value>, Error>,
    R: FnOnce(&ProgramID, usize, &Field, Vec<Value>, &Vec<ValueType>) -> Result<Response, Error>,
    T: FnOnce(&Request, &Response) -> Result<(), Error>,

    requires
        forall|request: &Request, types: &Vec<ValueType>| call_requires(verify, (request, types)),
        forall|stack: &Stack, function: &Function, inputs: &Vec<Value>|
            call_requires(evaluate, (stack, function, inputs)),
        forall|
            id: &ProgramID,
            inputs: usize,
            tvk: &Field,
            outputs: Vec<Value>,
            types: &Vec<ValueType>,
        |
            call_requires(respond, (id, inputs, tvk, outputs, types)),
        forall|request: &Request, response: &Response| call_requires(trace, (request, response)),
    ensures
        process.lets_evaluate(request, verify, evaluate, respond, trace),
{
}

/// A function that can be called on everything can be handed to `execute`, whatever the
/// authorization.
pub proof fn every_authorization_can_be_tried<const ID: u16, E>(
    process: Process<ID>,
    authorization: Authorization,
    run: E,
) where
    E: FnOnce(&Process<ID>, &Stack, CallStack) -> Result<
        (Response, Execution, Vec<MadeKey>),
        Error,
    >,

    requires
        forall|known: &Process<ID>, stack: &Stack, call_stack: CallStack|
            call_requires(run, (known, stack, call_stack)),
    ensures
        process.lets_execute(authorization, run),
{
}

/// A function that can be called on everything can be handed to `synthesize_key`, whatever the
/// function that a key is made for.
pub proof fn every_key_can_be_asked_for<F>(
    process: ProcessView,
    program_id: ProgramID,
    function_name: Identifier,
    synthesize: F,
) where
    F: FnOnce(&Stack, &Identifier, Option<&UniversalSRS>) -> Result<
        (ProvingKey, VerifyingKey),
        Error,
    >,

    requires
        forall|stack: &Stack, name: &Identifier, srs: Option<&UniversalSRS>|
            call_requires(synthesize, (stack, name, srs)),
    ensures
        process.lets_synthesize(program_id, function_name, synthesize),
{
}

} // verus!
