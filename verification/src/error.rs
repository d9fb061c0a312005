//! What can go wrong in a process.

use vstd::prelude::*;
use crate::names::{Identifier, ProgramID};

verus! {

/// Why a request to the process was refused.
#[derive(Debug, PartialEq, Eq)]
pub enum Error {
    /// No program of this name is in the process.
    ProgramNotFound(ProgramID),
    /// No stack of this name is in the process.
    StackNotFound(ProgramID),
    /// A call was to be authorized for a program that is not in the process.
    ProgramMissing(ProgramID),
    /// A program with this name is in the process already.
    ProgramExists(ProgramID),
    /// The calls of this function cannot be counted: they lead back to it, or their number is
    /// beyond `usize`.
    UnboundedCalls(Identifier),
    /// The program does not define the function.
    FunctionMissing(Identifier, ProgramID),
    /// The stack of the program does not define the function.
    FunctionNotFound(Identifier),
    /// The function that was to be executed is not in the program.
    FunctionAbsent(Identifier),
    /// A call names a program that the calling program does not import.
    ExternalProgramNotFound(ProgramID),
    /// The function declares one number of inputs, and another of input types.
    InputTypes { function: Identifier, program: ProgramID, inputs: usize, types: usize },
    /// The function declares one number of outputs, and another of output types.
    OutputTypes { function: Identifier, program: ProgramID, outputs: usize, types: usize },
    /// The call hands over another number of inputs than the function expects.
    InputCount { function: Identifier, program: ProgramID, expected: usize, found: usize },
    /// The signature of the request does not hold.
    InvalidRequest,
    /// The authorization holds no request.
    NoRequest,
    /// The request was made for another network.
    NetworkMismatch { network: u16, requested: u16 },
    /// No circuit key is known for the function.
    KeyNotFound(ProgramID, Identifier),
    /// The execution is empty.
    NoTransitions,
    /// The execution does not hold one transition for each call.
    TransitionCount { expected: usize, found: usize },
    /// An input of a transition does not match its identifier.
    InvalidInput,
    /// An output of a transition does not match its identifier.
    InvalidOutput,
    /// A coinbase transition takes a fee.
    CoinbaseFee,
    /// A transition that is no coinbase gives a fee.
    NegativeFee,
    /// The proof of a transition does not hold.
    InvalidTransition,
    /// The machinery that signs, evaluates or proves failed, for the reason given.
    Machinery(String),
}

/// The reference that was `found` is to what was `expected`, or both are the same error.
pub open spec fn finds<T>(found: Result<&T, Error>, expected: Result<T, Error>) -> bool {
    match found {
        Ok(value) => expected == Ok::<T, Error>(*value),
        Err(error) => expected == Err::<T, Error>(error),
    }
}

/// The digit of a number below ten.
pub open spec fn digit(n: nat) -> Seq<char>
    recommends
        n < 10,
{
    if n == 0 {
        "0"@
    } else if n == 1 {
        "1"@
    } else if n == 2 {
        "2"@
    } else if n == 3 {
        "3"@
    } else if n == 4 {
        "4"@
    } else if n == 5 {
        "5"@
    } else if n == 6 {
        "6"@
    } else if n == 7 {
        "7"@
    } else if n == 8 {
        "8"@
    } else {
        "9"@
    }
}

/// A number in decimal notation.
pub open spec fn decimal(n: nat) -> Seq<char>
    decreases n,
{
    if n < 10 {
        digit(n)
    } else {
        decimal(n / 10) + digit(n % 10)
    }
}

/// Returns the digit of a number below ten.
fn digit_of(n: usize) -> (text: &'static str)
    requires
        n < 10,
    ensures
        text@ == digit(n as nat),
{
    match n {
        0 => "0",
        1 => "1",
        2 => "2",
        3 => "3",
        4 => "4",
        5 => "5",
        6 => "6",
        7 => "7",
        8 => "8",
        _ => "9",
    }
}

/// Appends a number in decimal notation.
fn append_decimal(text: &mut String, n: usize)
    ensures
        final(text)@ == old(text)@ + decimal(n as nat),
    decreases n,
{
    let ghost start = text@;
    if n >= 10 {
        append_decimal(text, n / 10);
    }
    text.append(digit_of(n % 10));
    assert(text@ =~= start + decimal(n as nat));
}

impl Error {
    /// The error in words.
    pub open spec fn text(self) -> Seq<char> {
        match self {
            Error::ProgramNotFound(program) => "Program not found: "@ + program@,
            Error::StackNotFound(program) => "Stack not found: "@ + program@,
            Error::ProgramMissing(program) => {
                "Program '"@ + program@ + "' does not exist in the VM."@
            },
            Error::ProgramExists(program) => {
                "Program '"@ + program@ + "' already exists in the VM."@
            },
            Error::UnboundedCalls(function) => {
                "The calls of the function '"@ + function@ + "' cannot be counted."@
            },
            Error::FunctionMissing(function, program) => {
                "Function '"@ + function@ + "' does not exist in the program '"@ + program@ + "'."@
            },
            Error::FunctionNotFound(function) => "Function not found: "@ + function@,
            Error::FunctionAbsent(function) => "Function '"@ + function@ + "' does not exist."@,
            Error::ExternalProgramNotFound(program) => "External program not found: "@ + program@,
            Error::InputTypes { function, program, inputs, types } => {
                "Function '"@ + function@ + "' in the program '"@ + program@ + "' expects "@
                    + decimal(inputs as nat) + " inputs, but "@ + decimal(types as nat)
                    + " types were found."@
            },
            Error::OutputTypes { function, program, outputs, types } => {
                "Function '"@ + function@ + "' in the program '"@ + program@ + "' expects "@
                    + decimal(outputs as nat) + " outputs, but "@ + decimal(types as nat)
                    + " types were found."@
            },
            Error::InputCount { function, program, expected, found } => {
                "Function '"@ + function@ + "' in the program '"@ + program@ + "' expects "@
                    + decimal(expected as nat) + " inputs, but "@ + decimal(found as nat)
                    + " were provided."@
            },
            Error::InvalidRequest => "Request is invalid"@,
            Error::NoRequest => "There are no requests in the authorization"@,
            Error::NetworkMismatch { network, requested } => {
                "Network ID mismatch. Expected "@ + decimal(network as nat) + ", but found "@
                    + decimal(requested as nat)
            },
            Error::KeyNotFound(program, function) => {
                "Circuit key not found: "@ + program@ + "/"@ + function@
            },
            Error::NoTransitions => "There are no transitions in the execution"@,
            Error::TransitionCount { expected, found } => {
                "The number of transitions in the execution is incorrect. Expected "@
                    + decimal(expected as nat) + ", but found "@ + decimal(found as nat)
            },
            Error::InvalidInput => "Failed to verify a transition input"@,
            Error::InvalidOutput => "Failed to verify a transition output"@,
            Error::CoinbaseFee => "The fee must be negative in a coinbase transition"@,
            Error::NegativeFee => "The fee must be zero or positive"@,
            Error::InvalidTransition => "Transition is invalid"@,
            Error::Machinery(reason) => reason@,
        }
    }

    /// Returns the error in words.
    pub fn message(&self) -> (message: String)
        ensures
            message@ == self.text(),
    {
        let mut message = String::new();
        match self {
            Error::ProgramNotFound(program) => {
                message.append("Program not found: ");
                message.append(program.name.as_str());
            },
            Error::StackNotFound(program) => {
                message.append("Stack not found: ");
                message.append(program.name.as_str());
            },
            Error::ProgramMissing(program) => {
                message.append("Program '");
                message.append(program.name.as_str());
                message.append("' does not exist in the VM.");
            },
            Error::ProgramExists(program) => {
                message.append("Program '");
                message.append(program.name.as_str());
                message.append("' already exists in the VM.");
            },
            Error::UnboundedCalls(function) => {
                message.append("The calls of the function '");
                message.append(function.name.as_str());
                message.append("' cannot be counted.");
            },
            Error::FunctionMissing(function, program) => {
                message.append("Function '");
                message.append(function.name.as_str());
                message.append("' does not exist in the program '");
                message.append(program.name.as_str());
                message.append("'.");
            },
            Error::FunctionNotFound(function) => {
                message.append("Function not found: ");
                message.append(function.name.as_str());
            },
            Error::FunctionAbsent(function) => {
                message.append("Function '");
                message.append(function.name.as_str());
                message.append("' does not exist.");
            },
            Error::ExternalProgramNotFound(program) => {
                message.append("External program not found: ");
                message.append(program.name.as_str());
            },
            Error::InputTypes { function, program, inputs, types } => {
                message.append("Function '");
                message.append(function.name.as_str());
                message.append("' in the program '");
                message.append(program.name.as_str());
                message.append("' expects ");
                append_decimal(&mut message, *inputs);
                message.append(" inputs, but ");
                append_decimal(&mut message, *types);
                message.append(" types were found.");
            },
            Error::OutputTypes { function, program, outputs, types } => {
                message.append("Function '");
                message.append(function.name.as_str());
                message.append("' in the program '");
                message.append(program.name.as_str());
                message.append("' expects ");
                append_decimal(&mut message, *outputs);
                message.append(" outputs, but ");
                append_decimal(&mut message, *types);
                message.append(" types were found.");
            },
            Error::InputCount { function, program, expected, found } => {
                message.append("Function '");
                message.append(function.name.as_str());
                message.append("' in the program '");
                message.append(program.name.as_str());
                message.append("' expects ");
                append_decimal(&mut message, *expected);
                message.append(" inputs, but ");
                append_decimal(&mut message, *found);
                message.append(" were provided.");
            },
            Error::InvalidRequest => {
                message.append("Request is invalid");
            },
            Error::NoRequest => {
                message.append("There are no requests in the authorization");
            },
            Error::NetworkMismatch { network, requested } => {
                message.append("Network ID mismatch. Expected ");
                append_decimal(&mut message, *network as usize);
                message.append(", but found ");
                append_decimal(&mut message, *requested as usize);
            },
            Error::KeyNotFound(program, function) => {
                message.append("Circuit key not found: ");
                message.append(program.name.as_str());
                message.append("/");
                message.append(function.name.as_str());
            },
            Error::NoTransitions => {
                message.append("There are no transitions in the execution");
            },
            Error::TransitionCount { expected, found } => {
                message.append("The number of transitions in the execution is incorrect. Expected ");
                append_decimal(&mut message, *expected);
                message.append(", but found ");
                append_decimal(&mut message, *found);
            },
            Error::InvalidInput => {
                message.append("Failed to verify a transition input");
            },
            Error::InvalidOutput => {
                message.append("Failed to verify a transition output");
            },
            Error::CoinbaseFee => {
                message.append("The fee must be negative in a coinbase transition");
            },
            Error::NegativeFee => {
                message.append("The fee must be zero or positive");
            },
            Error::InvalidTransition => {
                message.append("Transition is invalid");
            },
            Error::Machinery(reason) => {
                message.append(reason.as_str());
            },
        }
        assert(message@ =~= self.text());
        message
    }
}

} // verus!
