//! What stands before a call is run, and the verification of what came of it.

use std::cell::Cell;

use aleo_process::error::Error;
use aleo_process::keys::{CircuitKey, MadeKey, ProvingKey, VerifyingKey};
use aleo_process::names::{Identifier, Locator, ProgramID};
use aleo_process::process::Process;
use aleo_process::program::{
    Call, CallOperator, Function, Instruction, Operand, Program, Register, ValueType,
};
use aleo_process::request::{Authorization, CallStack, PrivateKey, Request, Response, Value};
use aleo_process::transition::{Execution, Field, Proof, Transition, TransitionValue};
use aleo_process::verify::Checks;

const KEY: PrivateKey = PrivateKey { bytes: [5; 32] };

fn id(name: &str) -> ProgramID {
    ProgramID { name: name.to_string() }
}

fn name(name: &str) -> Identifier {
    Identifier { name: name.to_string() }
}

fn call(target: &str) -> Instruction {
    let operator = match target.split_once('/') {
        Some((program, resource)) => {
            CallOperator::Locator(Locator { program_id: id(program), resource: name(resource) })
        }
        None => CallOperator::Resource(name(target)),
    };
    Instruction::Call(Call { operator, operands: vec![], destinations: vec![] })
}

fn function(title: &str, instructions: Vec<Instruction>) -> Function {
    Function {
        name: name(title),
        inputs: vec![Register { name: "r0".to_string() }],
        input_types: vec![ValueType { name: "u32.public".to_string() }],
        instructions,
        outputs: vec![Operand { name: "r0".to_string() }],
        output_types: vec![ValueType { name: "u32.private".to_string() }],
    }
}

fn verifying_key(program: &str, title: &str) -> VerifyingKey {
    VerifyingKey { bytes: format!("{program}/{title}").into_bytes() }
}

/// A process with `mint`, with `transfer` that calls it twice, and with a wallet that calls
/// `transfer`.
fn process() -> Process<3> {
    let mut process: Process<3> = Process::new().unwrap();
    process
        .add_program(Program {
            id: id("token.aleo"),
            imports: vec![],
            closures: vec![],
            functions: vec![
                function("mint", vec![]),
                function("transfer", vec![call("mint"), call("mint")]),
            ],
        })
        .unwrap();
    process
        .add_program(Program {
            id: id("wallet.aleo"),
            imports: vec![id("token.aleo")],
            closures: vec![],
            functions: vec![function("transfer", vec![call("token.aleo/transfer")])],
        })
        .unwrap();
    for (program, title) in
        [("token.aleo", "mint"), ("token.aleo", "transfer"), ("wallet.aleo", "transfer")]
    {
        process.insert_key(
            &id(program),
            &name(title),
            ProvingKey { bytes: vec![] },
            verifying_key(program, title),
        );
    }
    process
}

fn value(name: &str) -> Value {
    Value { name: name.to_string() }
}

fn request(program: &str, title: &str, inputs: Vec<Value>) -> Request {
    Request {
        network_id: 3,
        program_id: id(program),
        function_name: name(title),
        inputs,
        tvk: field(77),
        signature: vec![1, 2],
    }
}

fn field(low: u128) -> Field {
    Field { low, high: 0 }
}

/// An input or output whose content is the number of its identifier.
fn shown(number: u128) -> TransitionValue {
    TransitionValue { id: field(number), content: Some(number.to_string()) }
}

fn holds(value: &TransitionValue) -> bool {
    match &value.content {
        Some(content) => *content == value.id.low.to_string(),
        None => true,
    }
}

fn to_field(fee: i64) -> Result<Field, Error> {
    Ok(field(fee as u64 as u128))
}

fn no_coinbase(_: &ProgramID, _: &Identifier) -> bool {
    false
}

fn transition(program: &str, title: &str, number: u128) -> Transition {
    Transition {
        program_id: id(program),
        function_name: name(title),
        inputs: vec![shown(number + 1)],
        outputs: vec![shown(number + 2), shown(number + 3)],
        tpk_x: field(number + 4),
        tpk_y: field(number + 5),
        fee: number as i64 + 6,
        proof: Proof { bytes: vec![number as u8] },
    }
}

fn execution() -> Execution {
    Execution {
        transitions: vec![
            transition("token.aleo", "mint", 10),
            transition("token.aleo", "mint", 20),
            transition("token.aleo", "transfer", 30),
            transition("wallet.aleo", "transfer", 40),
        ],
    }
}

fn verify(process: &Process<3>, execution: Execution) -> Result<(), Error> {
    let proof = |_: &VerifyingKey, _: &Identifier, _: &Vec<Field>, _: &Proof| true;
    process
        .verify(execution, Checks { value: holds, coinbase: no_coinbase, fee: to_field, proof })
}

/*************************** Authorization ***************************/

#[test]
fn an_authorization_hands_on_what_was_signed() {
    let process = process();
    let answer = process.authorize(
        &KEY,
        &id("token.aleo"),
        name("mint"),
        &[value("5u32")],
        |key, program, title, inputs, types| {
            assert_eq!(*key, KEY);
            assert_eq!(*program, id("token.aleo"));
            assert_eq!(*title, name("mint"));
            assert_eq!(inputs, &[value("5u32")]);
            assert_eq!(*types, vec![ValueType { name: "u32.public".to_string() }]);
            Ok(request("token.aleo", "mint", vec![value("5u32")]))
        },
        |stack, call_stack| {
            assert_eq!(stack.program.id, id("token.aleo"));
            match call_stack {
                CallStack::Authorize(requests, key, authorization) => {
                    let signed = request("token.aleo", "mint", vec![value("5u32")]);
                    assert_eq!(requests, vec![signed.clone()]);
                    assert_eq!(key, KEY);
                    assert_eq!(authorization, Authorization { requests: vec![signed] });
                    Ok((Response { outputs: vec![] }, authorization))
                }
                CallStack::Execute(_, _) => panic!("nothing is executed"),
            }
        },
    );
    let signed = request("token.aleo", "mint", vec![value("5u32")]);
    assert_eq!(answer, Ok(Authorization { requests: vec![signed] }));
}

#[test]
fn nothing_is_signed_for_a_call_that_does_not_fit() {
    let process = process();
    let authorize = |program: &str, title: &str, inputs: Vec<Value>| {
        process.authorize(
            &KEY,
            &id(program),
            name(title),
            &inputs,
            |_, _, _, _, _| panic!("nothing is signed"),
            |_, _| panic!("nothing is run"),
        )
    };
    assert_eq!(
        authorize("none.aleo", "mint", vec![]),
        Err(Error::ProgramMissing(id("none.aleo")))
    );
    assert_eq!(
        authorize("token.aleo", "burn", vec![]),
        Err(Error::FunctionMissing(name("burn"), id("token.aleo")))
    );
    assert_eq!(
        authorize("token.aleo", "mint", vec![value("1u32"), value("2u32")]),
        Err(Error::InputCount {
            function: name("mint"),
            program: id("token.aleo"),
            expected: 1,
            found: 2
        })
    );
}

#[test]
fn a_failure_to_sign_or_to_run_is_handed_on() {
    let process = process();
    let failure = || Error::Machinery("failed".to_string());
    let answer = process.authorize(
        &KEY,
        &id("token.aleo"),
        name("mint"),
        &[value("5u32")],
        |_, _, _, _, _| Err(failure()),
        |_, _| panic!("nothing is run"),
    );
    assert_eq!(answer, Err(failure()));
    let signed = request("token.aleo", "mint", vec![value("5u32")]);
    let answer = process.authorize_request(&id("token.aleo"), &KEY, signed, |_, _| Err(failure()));
    assert_eq!(answer, Err(failure()));
    let signed = request("token.aleo", "mint", vec![value("5u32")]);
    let answer =
        process.authorize_request(&id("none.aleo"), &KEY, signed, |_, _| panic!("not run"));
    assert_eq!(answer, Err(Error::StackNotFound(id("none.aleo"))));
}

#[test]
fn a_call_that_can_be_authorized_can_be_run() {
    let mut process = process();
    let (program, callee) = process.get_callee(&id("token.aleo"), &name("mint"), 1).unwrap();
    assert_eq!(program.id, id("token.aleo"));
    assert_eq!(callee.name, name("mint"));
    let signed = request("token.aleo", "mint", vec![value("5u32")]);
    let answer = process.evaluate(
        &signed,
        |_, _| true,
        |_, _, inputs| Ok(inputs.clone()),
        |_, _, _, outputs, _| Ok(Response { outputs }),
        |_, _| Ok(()),
    );
    assert_eq!(answer, Ok(Response { outputs: vec![value("5u32")] }));
    let authorization = Authorization::new(vec![signed]);
    let answer = process.execute(authorization, |_, stack, _| {
        assert_eq!(stack.program.id, id("token.aleo"));
        Ok((Response { outputs: vec![value("5u32")] }, Execution { transitions: vec![] }, vec![]))
    });
    assert!(answer.is_ok());
}

/*************************** Evaluation ***************************/

#[test]
fn an_evaluation_goes_step_by_step() {
    let process = process();
    let asked = request("token.aleo", "mint", vec![value("5u32")]);
    let traced = Cell::new(false);
    let answer = process.evaluate(
        &asked,
        |request, types| {
            assert_eq!(*request, asked);
            assert_eq!(types.len(), 1);
            true
        },
        |stack, function, inputs| {
            assert_eq!(stack.program.id, id("token.aleo"));
            assert_eq!(function.name, name("mint"));
            assert_eq!(*inputs, vec![value("5u32")]);
            Ok(vec![value("6u32")])
        },
        |program, count, tvk, outputs, types| {
            assert_eq!(*program, id("token.aleo"));
            assert_eq!(count, 1);
            assert_eq!(*tvk, field(77));
            assert_eq!(*types, vec![ValueType { name: "u32.private".to_string() }]);
            Ok(Response { outputs })
        },
        |request, response| {
            assert_eq!(*request, asked);
            assert_eq!(*response, Response { outputs: vec![value("6u32")] });
            traced.set(true);
            Ok(())
        },
    );
    assert_eq!(answer, Ok(Response { outputs: vec![value("6u32")] }));
    assert!(traced.get());
}

#[test]
fn an_evaluation_stops_at_the_first_failure() {
    let process = process();
    let failure = |step: u8| Error::Machinery(format!("step {step}"));
    let evaluate = |asked: &Request, step: u8| {
        process.evaluate(
            asked,
            |_, _| step != 0,
            |_, _, _| if step == 1 { Err(failure(1)) } else { Ok(vec![]) },
            |_, _, _, outputs, _| if step == 2 { Err(failure(2)) } else { Ok(Response { outputs }) },
            |_, _| if step == 3 { Err(failure(3)) } else { Ok(()) },
        )
    };
    let asked = request("token.aleo", "mint", vec![value("5u32")]);
    assert_eq!(evaluate(&asked, 0), Err(Error::InvalidRequest));
    assert_eq!(evaluate(&asked, 1), Err(failure(1)));
    assert_eq!(evaluate(&asked, 2), Err(failure(2)));
    assert_eq!(evaluate(&asked, 3), Err(failure(3)));
    assert_eq!(evaluate(&asked, 4), Ok(Response { outputs: vec![] }));
    assert_eq!(
        evaluate(&request("token.aleo", "mint", vec![]), 0),
        Err(Error::InputCount {
            function: name("mint"),
            program: id("token.aleo"),
            expected: 1,
            found: 0
        })
    );
    assert_eq!(
        evaluate(&request("none.aleo", "mint", vec![]), 0),
        Err(Error::ProgramNotFound(id("none.aleo")))
    );
}

/*************************** Execution ***************************/

fn made(program: &str, title: &str, byte: u8) -> MadeKey {
    MadeKey {
        program_id: id(program),
        function_name: name(title),
        key: CircuitKey {
            proving_key: ProvingKey { bytes: vec![byte] },
            verifying_key: VerifyingKey { bytes: vec![byte, byte] },
        },
    }
}

#[test]
fn an_execution_begins_without_transitions() {
    let mut process = process();
    let asked = || request("wallet.aleo", "transfer", vec![value("5u32")]);
    let answer = process.execute(Authorization::new(vec![asked()]), |known, stack, call_stack| {
        assert!(known.contains_program(&id("wallet.aleo")));
        assert_eq!(stack.program.id, id("wallet.aleo"));
        let begun = Execution { transitions: vec![] };
        assert_eq!(call_stack, CallStack::Execute(Authorization::new(vec![asked()]), begun));
        Ok((Response { outputs: vec![value("1u32")] }, execution(), vec![]))
    });
    assert_eq!(answer, Ok((Response { outputs: vec![value("1u32")] }, execution())));
}

#[test]
fn an_execution_leaves_the_keys_that_it_made() {
    let mut process = process();
    let asked = request("token.aleo", "transfer", vec![value("5u32")]);
    let answer = process.execute(Authorization::new(vec![asked]), |_, _, _| {
        let keys = vec![
            made("token.aleo", "mint", 1),
            made("token.aleo", "transfer", 2),
            made("token.aleo", "mint", 3),
        ];
        Ok((Response { outputs: vec![] }, execution(), keys))
    });
    assert!(answer.is_ok());
    // Of two keys for one function the later one counts.
    assert_eq!(
        process.get_proving_key(&id("token.aleo"), &name("mint")),
        Ok(&ProvingKey { bytes: vec![3] })
    );
    assert_eq!(
        process.get_verifying_key(&id("token.aleo"), &name("transfer")),
        Ok(&VerifyingKey { bytes: vec![2, 2] })
    );
    // The others stay.
    assert_eq!(
        process.get_verifying_key(&id("wallet.aleo"), &name("transfer")),
        Ok(&verifying_key("wallet.aleo", "transfer"))
    );
}

#[test]
fn an_execution_that_fails_leaves_the_keys_as_they_were() {
    let mut process = process();
    let failure = || Error::Machinery("failed".to_string());
    let asked = request("token.aleo", "mint", vec![value("5u32")]);
    let answer = process.execute(Authorization::new(vec![asked]), |_, _, _| Err(failure()));
    assert_eq!(answer, Err(failure()));
    assert_eq!(
        process.get_verifying_key(&id("token.aleo"), &name("mint")),
        Ok(&verifying_key("token.aleo", "mint"))
    );
}

#[test]
fn an_execution_is_refused_before_anything_is_run() {
    let mut process = process();
    let mut execute = |requests: Vec<Request>| {
        process.execute(Authorization::new(requests), |_, _, _| panic!("nothing is run"))
    };
    assert_eq!(execute(vec![]), Err(Error::NoRequest));
    assert_eq!(
        execute(vec![request("none.aleo", "f", vec![])]),
        Err(Error::StackNotFound(id("none.aleo")))
    );
    let mut elsewhere = request("token.aleo", "burn", vec![]);
    elsewhere.network_id = 4;
    assert_eq!(
        execute(vec![elsewhere]),
        Err(Error::NetworkMismatch { network: 3, requested: 4 })
    );
    assert_eq!(
        execute(vec![request("token.aleo", "burn", vec![])]),
        Err(Error::FunctionAbsent(name("burn")))
    );
}

#[test]
fn the_first_request_is_the_next_one() {
    let requests = vec![request("a.aleo", "f", vec![]), request("b.aleo", "g", vec![])];
    let authorization = Authorization::new(requests);
    assert_eq!(authorization.peek_next(), Ok(&request("a.aleo", "f", vec![])));
    assert_eq!(authorization.requests.len(), 2);
    assert_eq!(Authorization::new(vec![]).peek_next(), Err(Error::NoRequest));
}

/*************************** Verification ***************************/

#[test]
fn public_inputs_are_in_order() {
    let process = process();
    let Execution { transitions } = execution();
    let numbers = |inputs: Vec<Field>| -> Vec<u128> {
        assert!(inputs.iter().all(|input| input.high == 0));
        inputs.iter().map(|input| input.low).collect()
    };
    // A leaf: one, the public key, the input, the outputs and the fee.
    let before = vec![];
    assert_eq!(process.get_calls(&transitions[0], false), Ok(0));
    let (key, inputs) = process.get_statement(&transitions[0], &before, 0, field(99)).unwrap();
    assert_eq!(*key, verifying_key("token.aleo", "mint"));
    assert_eq!(numbers(inputs), vec![1, 14, 15, 11, 12, 13, 99]);
    // Two calls: the identifiers of both stand between, in the order of the calls.
    let before = execution().transitions.into_iter().take(2).collect();
    assert_eq!(process.get_calls(&transitions[2], false), Ok(2));
    let (key, inputs) = process.get_statement(&transitions[2], &before, 2, field(99)).unwrap();
    assert_eq!(*key, verifying_key("token.aleo", "transfer"));
    assert_eq!(numbers(inputs), vec![1, 34, 35, 31, 11, 12, 13, 21, 22, 23, 32, 33, 99]);
    // One call: only the last of the transitions before.
    let before = execution().transitions.into_iter().take(3).collect();
    assert_eq!(process.get_calls(&transitions[3], false), Ok(1));
    let (key, inputs) = process.get_statement(&transitions[3], &before, 1, field(99)).unwrap();
    assert_eq!(*key, verifying_key("wallet.aleo", "transfer"));
    assert_eq!(numbers(inputs), vec![1, 44, 45, 41, 31, 32, 33, 42, 43, 99]);
    // Fewer transitions than calls: those that there are.
    let before = execution().transitions.into_iter().take(1).collect();
    let (_, inputs) = process.get_statement(&transitions[2], &before, 2, field(99)).unwrap();
    assert_eq!(numbers(inputs), vec![1, 34, 35, 31, 11, 12, 13, 32, 33, 99]);
}

#[test]
fn an_execution_is_verified_from_its_last_transition() {
    let process = process();
    let asked = Cell::new(0);
    let proof = |key: &VerifyingKey, title: &Identifier, inputs: &Vec<Field>, proof: &Proof| {
        let expected = [
            ("wallet.aleo", "transfer", 10, 40),
            ("token.aleo", "transfer", 13, 30),
            ("token.aleo", "mint", 7, 20),
            ("token.aleo", "mint", 7, 10),
        ];
        let (program, function, count, byte) = expected[asked.get()];
        assert_eq!(*key, verifying_key(program, function));
        assert_eq!(*title, name(function));
        assert_eq!(inputs.len(), count);
        // The fee of each transition stands last.
        assert_eq!(inputs[count - 1], field(byte as u128 + 6));
        assert_eq!(*proof, Proof { bytes: vec![byte] });
        asked.set(asked.get() + 1);
        true
    };
    let checks = Checks { value: holds, coinbase: no_coinbase, fee: to_field, proof };
    assert_eq!(process.verify(execution(), checks), Ok(()));
    assert_eq!(asked.get(), 4);
}

#[test]
fn an_execution_holds_one_transition_for_each_call() {
    let process = process();
    assert_eq!(verify(&process, Execution::new()), Err(Error::NoTransitions));
    let mut short = execution();
    short.transitions.remove(0);
    assert_eq!(
        verify(&process, short),
        Err(Error::TransitionCount { expected: 4, found: 3 })
    );
    let mut long = execution();
    long.transitions.insert(0, transition("token.aleo", "mint", 50));
    assert_eq!(verify(&process, long), Err(Error::TransitionCount { expected: 4, found: 5 }));
    let mut unknown = execution();
    unknown.transitions[3].program_id = id("none.aleo");
    assert_eq!(verify(&process, unknown), Err(Error::StackNotFound(id("none.aleo"))));
    let mut unknown = execution();
    unknown.transitions[3].function_name = name("burn");
    assert_eq!(verify(&process, unknown), Err(Error::FunctionNotFound(name("burn"))));
}

#[test]
fn inputs_and_outputs_have_to_match_their_identifiers() {
    let process = process();
    let wrong = || Some("wrong".to_string());
    let mut bad = execution();
    bad.transitions[1].inputs[0].content = wrong();
    bad.transitions[1].outputs[0].content = wrong();
    assert_eq!(verify(&process, bad), Err(Error::InvalidInput));
    let mut bad = execution();
    bad.transitions[1].outputs[1].content = wrong();
    // The transition behind it is looked at first.
    bad.transitions[0].inputs[0].content = wrong();
    assert_eq!(verify(&process, bad), Err(Error::InvalidOutput));
    let mut hidden = execution();
    hidden.transitions[1].inputs[0].content = None;
    assert_eq!(verify(&process, hidden), Ok(()));
}

#[test]
fn fees_have_to_fit() {
    let process = process();
    let check = |amount: i64, coinbase: bool| {
        let mut single = Execution { transitions: vec![transition("token.aleo", "mint", 10)] };
        single.transitions[0].fee = amount;
        let coinbase = |program: &ProgramID, function: &Identifier| {
            assert_eq!(*program, id("token.aleo"));
            assert_eq!(*function, name("mint"));
            coinbase
        };
        let fee = |fee: i64| {
            assert_eq!(fee, amount);
            if fee == 13 {
                return Err(Error::Machinery("not in the field".to_string()));
            }
            to_field(fee)
        };
        let proof = |_: &VerifyingKey, _: &Identifier, _: &Vec<Field>, _: &Proof| true;
        process.verify(single, Checks { value: holds, coinbase, fee, proof })
    };
    assert_eq!(check(0, false), Ok(()));
    assert_eq!(check(i64::MAX, false), Ok(()));
    assert_eq!(check(-1, false), Err(Error::NegativeFee));
    assert_eq!(check(-1, true), Ok(()));
    assert_eq!(check(i64::MIN, true), Ok(()));
    assert_eq!(check(0, true), Err(Error::CoinbaseFee));
    assert_eq!(check(13, false), Err(Error::Machinery("not in the field".to_string())));
}

#[test]
fn a_transition_is_of_a_known_function_with_a_key() {
    let mut process = process();
    let mut bad = execution();
    bad.transitions[2].program_id = id("none.aleo");
    assert_eq!(verify(&process, bad), Err(Error::StackNotFound(id("none.aleo"))));
    let mut bad = execution();
    bad.transitions[2].function_name = name("burn");
    assert_eq!(verify(&process, bad), Err(Error::FunctionNotFound(name("burn"))));
    process
        .add_program(Program {
            id: id("new.aleo"),
            imports: vec![],
            closures: vec![],
            functions: vec![function("f", vec![])],
        })
        .unwrap();
    let single = Execution { transitions: vec![transition("new.aleo", "f", 10)] };
    assert_eq!(
        verify(&process, single),
        Err(Error::KeyNotFound(id("new.aleo"), name("f")))
    );
    // The executions of the other programs are verified as before.
    assert_eq!(verify(&process, execution()), Ok(()));
}

#[test]
fn one_proof_that_does_not_hold_is_enough() {
    let process = process();
    for byte in [10, 20, 30, 40] {
        let proof = |_: &VerifyingKey, _: &Identifier, _: &Vec<Field>, proof: &Proof| {
            proof.bytes != vec![byte]
        };
        let checks = Checks { value: holds, coinbase: no_coinbase, fee: to_field, proof };
        assert_eq!(process.verify(execution(), checks), Err(Error::InvalidTransition));
    }
}

#[test]
fn one_transition_is_verified_by_itself() {
    let process = process();
    let single = transition("token.aleo", "mint", 10);
    let before = vec![];
    let verify = |coinbase: bool, valid: bool| {
        let coinbase = |_: &ProgramID, _: &Identifier| coinbase;
        let proof = |_: &VerifyingKey, _: &Identifier, _: &Vec<Field>, _: &Proof| valid;
        let checks = Checks { value: holds, coinbase, fee: to_field, proof };
        process.verify_transition(&single, &before, &checks)
    };
    assert_eq!(verify(false, true), Ok(()));
    assert_eq!(verify(false, false), Err(Error::InvalidTransition));
    assert_eq!(verify(true, true), Err(Error::CoinbaseFee));
}

#[test]
fn a_key_of_another_function_changes_no_verification() {
    let mut process = process();
    let verify = |process: &Process<3>, execution: Execution| {
        let proof = |key: &VerifyingKey, _: &Identifier, _: &Vec<Field>, _: &Proof| {
            key.bytes.len() > 3
        };
        process
            .verify(execution, Checks { value: holds, coinbase: no_coinbase, fee: to_field, proof })
    };
    let single = || Execution { transitions: vec![transition("token.aleo", "mint", 10)] };
    assert_eq!(verify(&process, execution()), Ok(()));
    process.insert_key(
        &id("wallet.aleo"),
        &name("transfer"),
        ProvingKey { bytes: vec![] },
        VerifyingKey { bytes: vec![0] },
    );
    assert_eq!(verify(&process, single()), Ok(()));
    assert_eq!(verify(&process, execution()), Err(Error::InvalidTransition));
}

#[test]
fn nothing_is_asked_where_the_number_of_transitions_is_wrong() {
    let process = process();
    let refused = |execution: Execution| {
        let value = |_: &TransitionValue| -> bool { panic!("nothing is asked") };
        let coinbase = |_: &ProgramID, _: &Identifier| -> bool { panic!("nothing is asked") };
        let fee = |_: i64| -> Result<Field, Error> { panic!("nothing is asked") };
        let proof = |_: &VerifyingKey, _: &Identifier, _: &Vec<Field>, _: &Proof| -> bool {
            panic!("nothing is asked")
        };
        process.verify(execution, Checks { value, coinbase, fee, proof })
    };
    assert_eq!(refused(Execution::new()), Err(Error::NoTransitions));
    let mut short = execution();
    short.transitions.remove(0);
    assert_eq!(refused(short), Err(Error::TransitionCount { expected: 4, found: 3 }));
}

#[test]
fn nothing_is_evaluated_for_a_request_that_does_not_fit() {
    let process = process();
    let answer = process.evaluate(
        &request("token.aleo", "burn", vec![]),
        |_, _| panic!("nothing is asked"),
        |_, _, _| panic!("nothing is evaluated"),
        |_, _, _, _, _| panic!("nothing is answered"),
        |_, _| panic!("nothing is traced"),
    );
    assert_eq!(answer, Err(Error::FunctionMissing(name("burn"), id("token.aleo"))));
    let answer = process.evaluate(
        &request("token.aleo", "mint", vec![value("5u32")]),
        |_, _| false,
        |_, _, _| panic!("nothing is evaluated"),
        |_, _, _, _, _| panic!("nothing is answered"),
        |_, _| panic!("nothing is traced"),
    );
    assert_eq!(answer, Err(Error::InvalidRequest));
}
