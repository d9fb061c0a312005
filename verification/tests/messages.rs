//! Errors in words.

use aleo_process::error::Error;
use aleo_process::names::{Identifier, ProgramID};

fn id(name: &str) -> ProgramID {
    ProgramID { name: name.to_string() }
}

fn name(name: &str) -> Identifier {
    Identifier { name: name.to_string() }
}

#[test]
fn errors_about_programs_read_well() {
    assert_eq!(Error::ProgramNotFound(id("a.aleo")).message(), "Program not found: a.aleo");
    assert_eq!(Error::StackNotFound(id("a.aleo")).message(), "Stack not found: a.aleo");
    assert_eq!(
        Error::ProgramMissing(id("a.aleo")).message(),
        "Program 'a.aleo' does not exist in the VM."
    );
    assert_eq!(
        Error::ProgramExists(id("a.aleo")).message(),
        "Program 'a.aleo' already exists in the VM."
    );
    assert_eq!(
        Error::ExternalProgramNotFound(id("a.aleo")).message(),
        "External program not found: a.aleo"
    );
}

#[test]
fn errors_about_functions_read_well() {
    assert_eq!(
        Error::UnboundedCalls(name("f")).message(),
        "The calls of the function 'f' cannot be counted."
    );
    assert_eq!(
        Error::FunctionMissing(name("f"), id("a.aleo")).message(),
        "Function 'f' does not exist in the program 'a.aleo'."
    );
    assert_eq!(Error::FunctionNotFound(name("f")).message(), "Function not found: f");
    assert_eq!(Error::FunctionAbsent(name("f")).message(), "Function 'f' does not exist.");
    assert_eq!(
        Error::KeyNotFound(id("a.aleo"), name("f")).message(),
        "Circuit key not found: a.aleo/f"
    );
}

#[test]
fn errors_about_counts_read_well() {
    let (function, program) = (name("f"), id("a.aleo"));
    assert_eq!(
        Error::InputTypes { function, program, inputs: 2, types: 10 }.message(),
        "Function 'f' in the program 'a.aleo' expects 2 inputs, but 10 types were found."
    );
    let (function, program) = (name("f"), id("a.aleo"));
    assert_eq!(
        Error::OutputTypes { function, program, outputs: 0, types: 109 }.message(),
        "Function 'f' in the program 'a.aleo' expects 0 outputs, but 109 types were found."
    );
    let (function, program) = (name("f"), id("a.aleo"));
    assert_eq!(
        Error::InputCount { function, program, expected: 3, found: 45678 }.message(),
        "Function 'f' in the program 'a.aleo' expects 3 inputs, but 45678 were provided."
    );
    assert_eq!(
        Error::TransitionCount { expected: 4, found: usize::MAX }.message(),
        format!(
            "The number of transitions in the execution is incorrect. Expected 4, but found {}",
            usize::MAX
        )
    );
    assert_eq!(
        Error::NetworkMismatch { network: 3, requested: 65535 }.message(),
        "Network ID mismatch. Expected 3, but found 65535"
    );
}

#[test]
fn errors_about_requests_and_transitions_read_well() {
    assert_eq!(Error::InvalidRequest.message(), "Request is invalid");
    assert_eq!(Error::NoRequest.message(), "There are no requests in the authorization");
    assert_eq!(Error::NoTransitions.message(), "There are no transitions in the execution");
    assert_eq!(Error::InvalidInput.message(), "Failed to verify a transition input");
    assert_eq!(Error::InvalidOutput.message(), "Failed to verify a transition output");
    assert_eq!(
        Error::CoinbaseFee.message(),
        "The fee must be negative in a coinbase transition"
    );
    assert_eq!(Error::NegativeFee.message(), "The fee must be zero or positive");
    assert_eq!(Error::InvalidTransition.message(), "Transition is invalid");
    assert_eq!(Error::Machinery("no proof".to_string()).message(), "no proof");
}
