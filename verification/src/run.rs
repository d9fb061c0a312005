//! What stands before a call is authorized, evaluated or executed, and what comes of it.
//!
//! Signing, evaluating and proving are handed in as functions. Nothing is supposed of what they
//! return: each contract says what they are called with and what is made of every answer. They
//! have to be callable only where the process lets a call through, so that nothing is signed, run
//! or synthesized for one that it refuses.

use vstd::prelude::*;
use crate::error::Error;
use crate::keys::{CircuitKey, MadeKey, ProvingKey, UniversalSRS, VerifyingKey};
use crate::names::{Identifier, ProgramID};
use crate::process::{Process, ProcessView};
use crate::program::{Function, Program, ValueType};
use crate::request::{Authorization, CallStack, PrivateKey, Request, Response, Value};
use crate::stack::Stack;
use crate::transition::{Execution, Field};

verus! {

impl ProcessView {
    /// What [`Process::get_function_info`] returns.
    pub open spec fn function_info(self, program_id: ProgramID, function_name: Identifier) -> Result<
        (Program, Function),
        Error,
    > {
        match self.program_of(program_id) {
            Err(error) => Err(error),
            Ok(program) => {
                let function = program.function(function_name@);
                if !program.has_function(function_name@) {
                    Err(Error::FunctionMissing(function_name, program_id))
                } else if function.inputs.len() != function.input_types.len() {
                    Err(
                        Error::InputTypes {
                            function: function_name,
                            program: program_id,
                            inputs: function.inputs.len(),
                            types: function.input_types.len(),
                        },
                    )
                } else if function.outputs.len() != function.output_types.len() {
                    Err(
                        Error::OutputTypes {
                            function: function_name,
                            program: program_id,
                            outputs: function.outputs.len(),
                            types: function.output_types.len(),
                        },
                    )
                } else {
                    Ok((program, function))
                }
            },
        }
    }

    /// The function that a call with `inputs` many inputs is for, or why there is none.
    pub open spec fn callee(
        self,
        program_id: ProgramID,
        function_name: Identifier,
        inputs: usize,
    ) -> Result<(Program, Function), Error> {
        match self.function_info(program_id, function_name) {
            Err(error) => Err(error),
            Ok((program, function)) => if function.input_types.len() != inputs {
                Err(
                    Error::InputCount {
                        function: function.name,
                        program: program.id,
                        expected: function.input_types.len(),
                        found: inputs,
                    },
                )
            } else {
                Ok((program, function))
            },
        }
    }
}

impl<const ID: u16> Process<ID> {
    /// Returns the program, function, input types and output types for the given program ID and
    /// function name.
    pub fn get_function_info(&self, program_id: &ProgramID, function_name: &Identifier) -> (info:
        Result<(&Program, &Function, &Vec<ValueType>, &Vec<ValueType>), Error>)
        ensures
            match info {
                Ok((program, function, input_types, output_types)) => {
                    &&& self@.function_info(*program_id, *function_name) == Ok::<_, Error>(
                        (*program, *function),
                    )
                    &&& *input_types == function.input_types
                    &&& *output_types == function.output_types
                },
                Err(error) => self@.function_info(*program_id, *function_name) == Err::<
                    (Program, Function),
                    Error,
                >(error),
            },
    {
        // Retrieve the program.
        let program = self.get_program(program_id)?;
        // Ensure the function exists.
        if !program.contains_function(function_name) {
            return Err(Error::FunctionMissing(function_name.clone(), program_id.clone()));
        }
        // Retrieve the function, with its input and output types.
        let function = program.get_function(function_name)?;
        let input_types = &function.input_types;
        let output_types = &function.output_types;
        // Ensure the number of inputs matches the number of input types.
        if function.inputs.len() != input_types.len() {
            return Err(
                Error::InputTypes {
                    function: function_name.clone(),
                    program: program_id.clone(),
                    inputs: function.inputs.len(),
                    types: input_types.len(),
                },
            );
        }
        // Ensure the number of outputs matches the number of output types.
        if function.outputs.len() != output_types.len() {
            return Err(
                Error::OutputTypes {
                    function: function_name.clone(),
                    program: program_id.clone(),
                    outputs: function.outputs.len(),
                    types: output_types.len(),
                },
            );
        }
        Ok((program, function, input_types, output_types))
    }

    /// Returns the program and the function that a call with `inputs` many inputs is for.
    pub fn get_callee(
        &self,
        program_id: &ProgramID,
        function_name: &Identifier,
        inputs: usize,
    ) -> (callee: Result<(&Program, &Function), Error>)
        ensures
            match callee {
                Ok((program, function)) => self@.callee(*program_id, *function_name, inputs) == Ok::<
                    _,
                    Error,
                >((*program, *function)),
                Err(error) => self@.callee(*program_id, *function_name, inputs) == Err::<
                    (Program, Function),
                    Error,
                >(error),
            },
    {
        let (program, function, input_types, _) = self.get_function_info(
            program_id,
            function_name,
        )?;
        // Ensure the number of inputs matches.
        if input_types.len() != inputs {
            return Err(
                Error::InputCount {
                    function: function.name.clone(),
                    program: program.id.clone(),
                    expected: input_types.len(),
                    found: inputs,
                },
            );
        }
        Ok((program, function))
    }
}

/// The call stack on which the requests that `request` leads to are signed: it and the
/// authorization begin with that request.
pub open spec fn to_authorize(
    call_stack: CallStack,
    request: Request,
    private_key: PrivateKey,
) -> bool {
    match call_stack {
        CallStack::Authorize(requests, key, authorization) => {
            &&& requests@.len() == 1
            &&& requests@[0]@ == request@
            &&& key == private_key
            &&& authorization.requests@.len() == 1
            &&& authorization.requests@[0]@ == request@
        },
        CallStack::Execute(_, _) => false,
    }
}

/// Once the outputs of a function are known, the answer to the request may be the one given.
pub open spec fn response_outcome<R, T>(
    request: Request,
    program: Program,
    function: Function,
    outputs: Vec<Value>,
    respond: R,
    trace: T,
    answer: Result<Response, Error>,
) -> bool where
    R: FnOnce(&ProgramID, usize, &Field, Vec<Value>, &Vec<ValueType>) -> Result<Response, Error>,
    T: FnOnce(&Request, &Response) -> Result<(), Error>,
 {
    exists|response: Result<Response, Error>| #[trigger]
        call_ensures(
            respond,
            (&program.id, request.inputs.len(), &request.tvk, outputs, &function.output_types),
            response,
        ) && match response {
            Err(error) => answer == Err::<Response, Error>(error),
            Ok(response) => exists|traced: Result<(), Error>| #[trigger]
                call_ensures(trace, (&request, &response), traced) && match traced {
                    Err(error) => answer == Err::<Response, Error>(error),
                    Ok(()) => answer == Ok::<Response, Error>(response),
                },
        }
}

/// `respond` is callable on the outputs of a function, and `trace` on the response that it
/// returned.
pub open spec fn lets_respond<R, T>(
    request: Request,
    program: Program,
    function: Function,
    outputs: Vec<Value>,
    respond: R,
    trace: T,
) -> bool where
    R: FnOnce(&ProgramID, usize, &Field, Vec<Value>, &Vec<ValueType>) -> Result<Response, Error>,
    T: FnOnce(&Request, &Response) -> Result<(), Error>,
 {
    &&& call_requires(
        respond,
        (&program.id, request.inputs.len(), &request.tvk, outputs, &function.output_types),
    )
    &&& forall|response: Response| #[trigger]
        call_ensures(
            respond,
            (&program.id, request.inputs.len(), &request.tvk, outputs, &function.output_types),
            Ok::<Response, Error>(response),
        ) ==> call_requires(trace, (&request, &response))
}

/// The authorization that running a function leaves.
pub open spec fn authorization_of(ran: Result<(Response, Authorization), Error>) -> Result<
    Authorization,
    Error,
> {
    match ran {
        Ok(both) => Ok(both.1),
        Err(error) => Err(error),
    }
}

/// The call stack on which `authorization` is executed: no transition is made yet.
pub open spec fn to_execute(call_stack: CallStack, authorization: Authorization) -> bool {
    match call_stack {
        CallStack::Execute(given, execution) => given == authorization
            && execution.transitions@.len() == 0,
        CallStack::Authorize(_, _, _) => false,
    }
}

impl ProcessView {
    /// The function that is to be authorized, or why it cannot be.
    pub open spec fn authorizable(
        self,
        program_id: ProgramID,
        function_name: Identifier,
        inputs: usize,
    ) -> Result<(Program, Function), Error> {
        if self.programs.contains_key(program_id@) {
            self.callee(program_id, function_name, inputs)
        } else {
            Err(Error::ProgramMissing(program_id))
        }
    }

    /// `execute` is callable on the stack of the program called `program_id`, to authorize
    /// `request`. Of other calls nothing is said.
    pub open spec fn lets_run<E>(
        self,
        program_id: ProgramID,
        private_key: PrivateKey,
        request: Request,
        execute: E,
    ) -> bool where E: FnOnce(&Stack, CallStack) -> Result<(Response, Authorization), Error> {
        forall|stack: &Stack, call_stack: CallStack|
            self.stack_of(program_id) == Ok::<Stack, Error>(*stack) && to_authorize(
                call_stack,
                request,
                private_key,
            ) ==> #[trigger] call_requires(execute, (stack, call_stack))
    }

    /// Where the call may be authorized, `sign` is callable for it, and `execute` to run the
    /// request that `sign` returned. Where the call is refused, neither needs to be.
    pub open spec fn lets_authorize<S, E>(
        self,
        private_key: PrivateKey,
        program_id: ProgramID,
        function_name: Identifier,
        inputs: &[Value],
        sign: S,
        execute: E,
    ) -> bool where
        S: FnOnce(&PrivateKey, &ProgramID, &Identifier, &[Value], &Vec<ValueType>) -> Result<
            Request,
            Error,
        >,
        E: FnOnce(&Stack, CallStack) -> Result<(Response, Authorization), Error>,
     {
        self.authorizable(program_id, function_name, inputs@.len() as usize) matches Ok(
            (program, function),
        ) ==> {
            &&& call_requires(
                sign,
                (&private_key, &program.id, &function.name, inputs, &function.input_types),
            )
            &&& forall|request: Request| #[trigger]
                call_ensures(
                    sign,
                    (&private_key, &program.id, &function.name, inputs, &function.input_types),
                    Ok::<Request, Error>(request),
                ) ==> self.lets_run(program.id, private_key, request, execute)
        }
    }

    /// Once a `request` is signed for a call to the program called `program_id`, running it
    /// through `execute` may come to the given `answer`.
    pub open spec fn signed_outcome<E>(
        self,
        program_id: ProgramID,
        private_key: PrivateKey,
        request: Request,
        execute: E,
        answer: Result<Authorization, Error>,
    ) -> bool where E: FnOnce(&Stack, CallStack) -> Result<(Response, Authorization), Error> {
        match self.stack_of(program_id) {
            Err(error) => answer == Err::<Authorization, Error>(error),
            Ok(stack) => exists|
                call_stack: CallStack,
                ran: Result<(Response, Authorization), Error>,
            | #[trigger]
                call_ensures(execute, (&stack, call_stack), ran) && to_authorize(
                    call_stack,
                    request,
                    private_key,
                ) && answer == authorization_of(ran),
        }
    }

    /// With `sign` and `execute`, [`Process::authorize`] may come to the given `answer`.
    pub open spec fn authorize_outcome<S, E>(
        self,
        private_key: PrivateKey,
        program_id: ProgramID,
        function_name: Identifier,
        inputs: &[Value],
        sign: S,
        execute: E,
        answer: Result<Authorization, Error>,
    ) -> bool where
        S: FnOnce(&PrivateKey, &ProgramID, &Identifier, &[Value], &Vec<ValueType>) -> Result<
            Request,
            Error,
        >,
        E: FnOnce(&Stack, CallStack) -> Result<(Response, Authorization), Error>,
     {
        match self.authorizable(program_id, function_name, inputs@.len() as usize) {
            Err(error) => answer == Err::<Authorization, Error>(error),
            Ok((program, function)) => exists|signed: Result<Request, Error>| #[trigger]
                call_ensures(
                    sign,
                    (&private_key, &program.id, &function.name, inputs, &function.input_types),
                    signed,
                ) && match signed {
                    Err(error) => answer == Err::<Authorization, Error>(error),
                    Ok(request) => self.signed_outcome(
                        program.id,
                        private_key,
                        request,
                        execute,
                        answer,
                    ),
                },
        }
    }

    /// The functions given are callable in turn, each on what the one before it returned: where
    /// the request is for a function of the process and has as many inputs, `verify` is, and the
    /// others are where `verify` finds the request valid. Once the request is refused, none of
    /// those that come later needs to be.
    pub open spec fn lets_evaluate<V, F, R, T>(
        self,
        request: Request,
        verify: V,
        evaluate: F,
        respond: R,
        trace: T,
    ) -> bool where
        V: FnOnce(&Request, &Vec<ValueType>) -> bool,
        F: FnOnce(&Stack, &Function, &Vec<Value>) -> Result<Vec<Value>, Error>,
        R: FnOnce(&ProgramID, usize, &Field, Vec<Value>, &Vec<ValueType>) -> Result<
            Response,
            Error,
        >,
        T: FnOnce(&Request, &Response) -> Result<(), Error>,
     {
        self.callee(request.program_id, request.function_name, request.inputs.len()) matches Ok(
            (program, function),
        ) ==> {
            &&& call_requires(verify, (&request, &function.input_types))
            &&& call_ensures(verify, (&request, &function.input_types), true) ==> (self.stack_of(
                program.id,
            ) matches Ok(stack) ==> {
                &&& call_requires(evaluate, (&stack, &function, &request.inputs))
                &&& forall|outputs: Vec<Value>| #[trigger]
                    call_ensures(
                        evaluate,
                        (&stack, &function, &request.inputs),
                        Ok::<Vec<Value>, Error>(outputs),
                    ) ==> lets_respond(request, program, function, outputs, respond, trace)
            })
        }
    }

    /// With the functions given, [`Process::evaluate`] may come to the given `answer`.
    pub open spec fn evaluate_outcome<V, F, R, T>(
        self,
        request: Request,
        verify: V,
        evaluate: F,
        respond: R,
        trace: T,
        answer: Result<Response, Error>,
    ) -> bool where
        V: FnOnce(&Request, &Vec<ValueType>) -> bool,
        F: FnOnce(&Stack, &Function, &Vec<Value>) -> Result<Vec<Value>, Error>,
        R: FnOnce(&ProgramID, usize, &Field, Vec<Value>, &Vec<ValueType>) -> Result<
            Response,
            Error,
        >,
        T: FnOnce(&Request, &Response) -> Result<(), Error>,
     {
        match self.callee(request.program_id, request.function_name, request.inputs.len()) {
            Err(error) => answer == Err::<Response, Error>(error),
            Ok((program, function)) => exists|valid: bool| #[trigger]
                call_ensures(verify, (&request, &function.input_types), valid) && if valid {
                    self.verified_outcome(
                        request,
                        program,
                        function,
                        evaluate,
                        respond,
                        trace,
                        answer,
                    )
                } else {
                    answer == Err::<Response, Error>(Error::InvalidRequest)
                },
        }
    }

    /// Once a request is known to be valid, its evaluation may come to the given `answer`.
    pub open spec fn verified_outcome<F, R, T>(
        self,
        request: Request,
        program: Program,
        function: Function,
        evaluate: F,
        respond: R,
        trace: T,
        answer: Result<Response, Error>,
    ) -> bool where
        F: FnOnce(&Stack, &Function, &Vec<Value>) -> Result<Vec<Value>, Error>,
        R: FnOnce(&ProgramID, usize, &Field, Vec<Value>, &Vec<ValueType>) -> Result<
            Response,
            Error,
        >,
        T: FnOnce(&Request, &Response) -> Result<(), Error>,
     {
        match self.stack_of(program.id) {
            Err(error) => answer == Err::<Response, Error>(error),
            Ok(stack) => exists|outputs: Result<Vec<Value>, Error>| #[trigger]
                call_ensures(evaluate, (&stack, &function, &request.inputs), outputs)
                    && match outputs {
                    Err(error) => answer == Err::<Response, Error>(error),
                    Ok(outputs) => response_outcome(
                        request,
                        program,
                        function,
                        outputs,
                        respond,
                        trace,
                        answer,
                    ),
                },
        }
    }

    /// The stack on which `authorization` is to be executed, or why it cannot be.
    pub open spec fn executable(self, network_id: u16, authorization: Authorization) -> Result<
        Stack,
        Error,
    > {
        match authorization.next_request() {
            Err(error) => Err(error),
            Ok(request) => match self.stack_of(request.program_id) {
                Err(error) => Err(error),
                Ok(stack) => if request.network_id != network_id {
                    Err(
                        Error::NetworkMismatch {
                            network: network_id,
                            requested: request.network_id,
                        },
                    )
                } else if !stack.program.has_function(request.function_name@) {
                    Err(Error::FunctionAbsent(request.function_name))
                } else {
                    Ok(stack)
                },
            },
        }
    }

    /// `synthesize` is callable for the given function, on the stack of its program and with the
    /// reference string of the process. Where the program has no stack, it does not need to be.
    pub open spec fn lets_synthesize<F>(
        self,
        program_id: ProgramID,
        function_name: Identifier,
        synthesize: F,
    ) -> bool where
        F: FnOnce(&Stack, &Identifier, Option<&UniversalSRS>) -> Result<
            (ProvingKey, VerifyingKey),
            Error,
        >,
     {
        forall|stack: &Stack, srs: Option<&UniversalSRS>|
            self.stack_of(program_id) == Ok::<Stack, Error>(*stack) && self.universal_srs_is(srs)
                ==> #[trigger] call_requires(synthesize, (stack, &function_name, srs))
    }

    /// With `synthesize`, [`Process::synthesize_key`] may come to the given `answer`, and leave
    /// the process as `after` says.
    pub open spec fn synthesize_outcome<F>(
        self,
        program_id: ProgramID,
        function_name: Identifier,
        synthesize: F,
        answer: Result<(), Error>,
        after: Self,
    ) -> bool where
        F: FnOnce(&Stack, &Identifier, Option<&UniversalSRS>) -> Result<
            (ProvingKey, VerifyingKey),
            Error,
        >,
     {
        match self.stack_of(program_id) {
            Err(error) => answer == Err::<(), Error>(error) && after == self,
            Ok(stack) => exists|
                srs: Option<&UniversalSRS>,
                made: Result<(ProvingKey, VerifyingKey), Error>,
            | #[trigger]
                call_ensures(synthesize, (&stack, &function_name, srs), made)
                    && self.universal_srs_is(srs) && match made {
                    Err(error) => answer == Err::<(), Error>(error) && after == self,
                    Ok(keys) => answer == Ok::<(), Error>(()) && after == self.with_key(
                        program_id@,
                        function_name@,
                        CircuitKey { proving_key: keys.0, verifying_key: keys.1 },
                    ),
                },
        }
    }
}

impl<const ID: u16> Process<ID> {
    /// `run` is callable to execute `authorization`, on this process, the stack on which it is to
    /// be executed and a call stack without transitions. Where it may not be executed, `run` does
    /// not need to be.
    pub open spec fn lets_execute<E>(self, authorization: Authorization, run: E) -> bool where
        E: FnOnce(&Process<ID>, &Stack, CallStack) -> Result<
            (Response, Execution, Vec<MadeKey>),
            Error,
        >,
     {
        forall|stack: &Stack, call_stack: CallStack|
            self@.executable(ID, authorization) == Ok::<Stack, Error>(*stack) && to_execute(
                call_stack,
                authorization,
            ) ==> #[trigger] call_requires(run, (&self, stack, call_stack))
    }

    /// To execute `authorization` on this process, `run` may return what it `ran`.
    pub open spec fn may_run<E>(
        self,
        authorization: Authorization,
        run: E,
        ran: Result<(Response, Execution, Vec<MadeKey>), Error>,
    ) -> bool where
        E: FnOnce(&Process<ID>, &Stack, CallStack) -> Result<
            (Response, Execution, Vec<MadeKey>),
            Error,
        >,
     {
        exists|stack: &Stack, call_stack: CallStack|
            self@.executable(ID, authorization) == Ok::<Stack, Error>(*stack) && to_execute(
                call_stack,
                authorization,
            ) && #[trigger] call_ensures(run, (&self, stack, call_stack), ran)
    }

    /// With `run`, [`Process::execute`] may come to the given `answer`, and leave the process as
    /// `after` says: with the circuit keys that were made, where it succeeds, and else as it was.
    pub open spec fn execute_outcome<E>(
        self,
        authorization: Authorization,
        run: E,
        answer: Result<(Response, Execution), Error>,
        after: ProcessView,
    ) -> bool where
        E: FnOnce(&Process<ID>, &Stack, CallStack) -> Result<
            (Response, Execution, Vec<MadeKey>),
            Error,
        >,
     {
        match self@.executable(ID, authorization) {
            Err(error) => answer == Err::<(Response, Execution), Error>(error) && after == self@,
            Ok(_) => exists|ran: Result<(Response, Execution, Vec<MadeKey>), Error>| #[trigger]
                self.may_run(authorization, run, ran) && match ran {
                    Err(error) => answer == Err::<(Response, Execution), Error>(error) && after
                        == self@,
                    Ok((response, execution, made)) => answer == Ok::<_, Error>(
                        (response, execution),
                    ) && after == self@.with_made(made@),
                },
        }
    }
}

impl<const ID: u16> Process<ID> {
    /// Goes on once a request is signed for a call to the program of the given ID: `execute` runs
    /// the function, and returns the authorization with the requests that the calls within it
    /// lead to.
    pub fn authorize_request<E>(
        &self,
        program_id: &ProgramID,
        private_key: &PrivateKey,
        request: Request,
        execute: E,
    ) -> (answer: Result<Authorization, Error>) where
        E: FnOnce(&Stack, CallStack) -> Result<(Response, Authorization), Error>,

        requires
            self@.lets_run(*program_id, *private_key, request, execute),
        ensures
            self@.signed_outcome(*program_id, *private_key, request, execute, answer),
    {
        // Initialize the authorization.
        let mut signed: Vec<Request> = Vec::new();
        signed.push(request.clone());
        let authorization = Authorization::new(signed);
        // Retrieve the stack.
        let stack = self.get_stack(program_id)?;
        // Construct the authorization from the function.
        let mut requests: Vec<Request> = Vec::new();
        requests.push(request);
        let call_stack = CallStack::Authorize(requests, *private_key, authorization);
        assert(to_authorize(call_stack, request, *private_key));
        let ran = execute(stack, call_stack);
        proof {
            let known = self@.stack_of(*program_id)->Ok_0;
            assert(call_ensures(execute, (&known, call_stack), ran));
        }
        match ran {
            Ok(both) => Ok(both.1),
            Err(error) => Err(error),
        }
    }

    /// Authorizes a call to the program function for the given inputs. A request that matches
    /// the function is signed by `sign`, and `execute` runs the function on it. For a call that is
    /// refused, nothing is signed and nothing is run.
    pub fn authorize<S, E>(
        &self,
        private_key: &PrivateKey,
        program_id: &ProgramID,
        function_name: Identifier,
        inputs: &[Value],
        sign: S,
        execute: E,
    ) -> (answer: Result<Authorization, Error>) where
        S: FnOnce(&PrivateKey, &ProgramID, &Identifier, &[Value], &Vec<ValueType>) -> Result<
            Request,
            Error,
        >,
        E: FnOnce(&Stack, CallStack) -> Result<(Response, Authorization), Error>,

        requires
            self@.lets_authorize(
                *private_key,
                *program_id,
                function_name,
                inputs,
                sign,
                execute,
            ),
        ensures
            self@.authorize_outcome(
                *private_key,
                *program_id,
                function_name,
                inputs,
                sign,
                execute,
                answer,
            ),
    {
        // Ensure the program exists.
        if !self.contains_program(program_id) {
            return Err(Error::ProgramMissing(program_id.clone()));
        }
        // Retrieve the function, and ensure the number of inputs matches.
        let (program, function) = self.get_callee(program_id, &function_name, inputs.len())?;
        // Compute the request.
        let request = sign(
            private_key,
            &program.id,
            &function.name,
            inputs,
            &function.input_types,
        )?;
        self.authorize_request(&program.id, private_key, request, execute)
    }

    /// Executes the given authorization: `run` runs the function of its first request, and
    /// returns the transitions that prove the calls, with the circuit keys that it had to make.
    /// Those stay in the process, so that the execution can be verified in it. Nothing is run
    /// where the authorization may not be executed.
    pub fn execute<E>(&mut self, authorization: Authorization, run: E) -> (answer: Result<
        (Response, Execution),
        Error,
    >) where
        E: FnOnce(&Process<ID>, &Stack, CallStack) -> Result<
            (Response, Execution, Vec<MadeKey>),
            Error,
        >,

        requires
            old(self).lets_execute(authorization, run),
        ensures
            old(self).execute_outcome(authorization, run, answer, final(self)@),
            old(self)@.well_formed() ==> final(self)@.well_formed(),
    {
        let process: &Process<ID> = &*self;
        // Retrieve the main request (without popping it).
        let request = authorization.peek_next()?;
        // Prepare the stack.
        let stack = process.get_stack(&request.program_id)?;
        // Ensure the network ID matches.
        if request.network_id != ID {
            return Err(Error::NetworkMismatch { network: ID, requested: request.network_id });
        }
        // Ensure that the function exists.
        if !stack.program.contains_function(&request.function_name) {
            return Err(Error::FunctionAbsent(request.function_name.clone()));
        }
        // Initialize the execution.
        let call_stack = CallStack::Execute(authorization, Execution::new());
        assert(to_execute(call_stack, authorization));
        // Execute the circuit.
        let ran = run(process, stack, call_stack);
        assert(old(self).may_run(authorization, run, ran));
        // Keep the circuit keys, and return the response with the execution.
        match ran {
            Ok((response, execution, made)) => {
                self.keep(made);
                Ok((response, execution))
            },
            Err(error) => Err(error),
        }
    }

    /// Evaluates a program function on the given request. Whether the request holds is for
    /// `verify` to say. The outputs come from `evaluate`, the response from `respond`, and it is
    /// returned once `trace` has recorded it.
    pub fn evaluate<V, F, R, T>(
        &self,
        request: &Request,
        verify: V,
        evaluate: F,
        respond: R,
        trace: T,
    ) -> (answer: Result<Response, Error>) where
        V: FnOnce(&Request, &Vec<ValueType>) -> bool,
        F: FnOnce(&Stack, &Function, &Vec<Value>) -> Result<Vec<Value>, Error>,
        R: FnOnce(&ProgramID, usize, &Field, Vec<Value>, &Vec<ValueType>) -> Result<
            Response,
            Error,
        >,
        T: FnOnce(&Request, &Response) -> Result<(), Error>,

        requires
            self@.lets_evaluate(*request, verify, evaluate, respond, trace),
        ensures
            self@.evaluate_outcome(*request, verify, evaluate, respond, trace, answer),
    {
        // Retrieve the function, and ensure the number of inputs matches.
        let (program, function) = self.get_callee(
            &request.program_id,
            &request.function_name,
            request.inputs.len(),
        )?;
        // Ensure the request is well-formed.
        if !verify(request, &function.input_types) {
            return Err(Error::InvalidRequest);
        }
        // Prepare the stack.
        let stack = self.get_stack(&program.id)?;
        // Evaluate the function.
        let outputs = evaluate(stack, function, &request.inputs)?;
        // Compute the response.
        let response = respond(
            &program.id,
            request.inputs.len(),
            &request.tvk,
            outputs,
            &function.output_types,
        )?;
        // Trace the response.
        trace(request, &response)?;
        Ok(response)
    }

    /// Synthesizes the proving and verifying key for the given program ID and function name, by
    /// means of `synthesize`. Nothing is synthesized where the program is not in the process.
    pub fn synthesize_key<F>(
        &mut self,
        program_id: &ProgramID,
        function_name: &Identifier,
        synthesize: F,
    ) -> (answer: Result<(), Error>) where
        F: FnOnce(&Stack, &Identifier, Option<&UniversalSRS>) -> Result<
            (ProvingKey, VerifyingKey),
            Error,
        >,

        requires
            old(self)@.lets_synthesize(*program_id, *function_name, synthesize),
        ensures
            old(self)@.synthesize_outcome(
                *program_id,
                *function_name,
                synthesize,
                answer,
                final(self)@,
            ),
            old(self)@.well_formed() ==> final(self)@.well_formed(),
    {
        // Retrieve the stack.
        let stack = self.get_stack(program_id)?;
        // Synthesize the proving and verifying key.
        let made = synthesize(stack, function_name, self.get_universal_srs());
        match made {
            Ok((proving_key, verifying_key)) => {
                self.insert_key(program_id, function_name, proving_key, verifying_key);
                Ok(())
            },
            Err(error) => Err(error),
        }
    }
}

} // verus!
