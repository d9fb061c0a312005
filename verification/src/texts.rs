//! What errors say.

use vstd::prelude::*;
use crate::error::{decimal, digit, Error};
use crate::names::{Identifier, ProgramID};

verus! {

/// The number that digits stand for.
pub open spec fn number_read(text: Seq<char>) -> nat {
    text.fold_left(0nat, |number: nat, c: char| (number * 10 + (c as int - '0' as int)) as nat)
}

/// A number in decimal notation is made of digits, has no zero in front, and reads as that number.
pub proof fn decimals_read_back(n: nat)
    ensures
        number_read(decimal(n)) == n,
        decimal(n).len() > 0,
        forall|i: int| 0 <= i < decimal(n).len() ==> '0' <= #[trigger] decimal(n)[i] <= '9',
        n > 0 ==> decimal(n)[0] != '0',
    decreases n,
{
    let text = decimal(n);
    lemma_digit(n % 10);
    if n < 10 {
        assert(text.drop_last() =~= Seq::empty());
        assert(text.drop_last().fold_left(
            0nat,
            |number: nat, c: char| (number * 10 + (c as int - '0' as int)) as nat,
        ) == 0);
        assert(number_read(text) == n);
    } else {
        decimals_read_back(n / 10);
        assert(text.drop_last() =~= decimal(n / 10));
        assert(text.last() == digit(n % 10)[0]);
        assert(n == (n / 10) * 10 + n % 10);
        assert(text[0] == decimal(n / 10)[0]);
        assert forall|i: int| 0 <= i < text.len() implies '0' <= #[trigger] text[i] <= '9' by {
            if i < text.len() - 1 {
                assert(text[i] == decimal(n / 10)[i]);
            }
        }
    }
}

proof fn lemma_digit(n: nat)
    requires
        n < 10,
    ensures
        digit(n).len() == 1,
        digit(n)[0] as int == '0' as int + n,
{
    reveal_strlit("0");
    reveal_strlit("1");
    reveal_strlit("2");
    reveal_strlit("3");
    reveal_strlit("4");
    reveal_strlit("5");
    reveal_strlit("6");
    reveal_strlit("7");
    reveal_strlit("8");
    reveal_strlit("9");
}

/// An error about a program or a function names it in full.
pub proof fn errors_name_what_they_are_about(program: ProgramID, function: Identifier)
    ensures
        Error::ProgramNotFound(program).text() == "Program not found: "@ + program.name@,
        Error::StackNotFound(program).text() == "Stack not found: "@ + program.name@,
        Error::ProgramMissing(program).text() == "Program '"@ + program.name@
            + "' does not exist in the VM."@,
        Error::ProgramExists(program).text() == "Program '"@ + program.name@
            + "' already exists in the VM."@,
        Error::UnboundedCalls(function).text() == "The calls of the function '"@ + function.name@
            + "' cannot be counted."@,
        Error::FunctionMissing(function, program).text() == "Function '"@ + function.name@
            + "' does not exist in the program '"@ + program.name@ + "'."@,
        Error::FunctionNotFound(function).text() == "Function not found: "@ + function.name@,
        Error::FunctionAbsent(function).text() == "Function '"@ + function.name@
            + "' does not exist."@,
        Error::ExternalProgramNotFound(program).text() == "External program not found: "@
            + program.name@,
        Error::KeyNotFound(program, function).text() == "Circuit key not found: "@ + program.name@
            + "/"@ + function.name@,
{
}

/// An error about a number gives the one that was expected and the one that was found, in full.
pub proof fn errors_give_their_numbers(
    program: ProgramID,
    function: Identifier,
    one: usize,
    other: usize,
    network: u16,
    requested: u16,
)
    ensures
        ({
            let error = Error::InputTypes { function, program, inputs: one, types: other };
            error.text() == "Function '"@ + function.name@ + "' in the program '"@ + program.name@
                + "' expects "@ + decimal(one as nat) + " inputs, but "@ + decimal(other as nat)
                + " types were found."@
        }),
        ({
            let error = Error::OutputTypes { function, program, outputs: one, types: other };
            error.text() == "Function '"@ + function.name@ + "' in the program '"@ + program.name@
                + "' expects "@ + decimal(one as nat) + " outputs, but "@ + decimal(other as nat)
                + " types were found."@
        }),
        ({
            let error = Error::InputCount { function, program, expected: one, found: other };
            error.text() == "Function '"@ + function.name@ + "' in the program '"@ + program.name@
                + "' expects "@ + decimal(one as nat) + " inputs, but "@ + decimal(other as nat)
                + " were provided."@
        }),
        ({
            let error = Error::TransitionCount { expected: one, found: other };
            error.text()
                == "The number of transitions in the execution is incorrect. Expected "@ + decimal(
                one as nat,
            ) + ", but found "@ + decimal(other as nat)
        }),
        ({
            let error = Error::NetworkMismatch { network, requested };
            error.text() == "Network ID mismatch. Expected "@ + decimal(network as nat)
                + ", but found "@ + decimal(requested as nat)
        }),
{
}

/// Every other error has one text, and a failure of the machinery has the reason that it gave.
pub proof fn errors_say_what_is_wrong(reason: String)
    ensures
        Error::InvalidRequest.text() == "Request is invalid"@,
        Error::NoRequest.text() == "There are no requests in the authorization"@,
        Error::NoTransitions.text() == "There are no transitions in the execution"@,
        Error::InvalidInput.text() == "Failed to verify a transition input"@,
        Error::InvalidOutput.text() == "Failed to verify a transition output"@,
        Error::CoinbaseFee.text() == "The fee must be negative in a coinbase transition"@,
        Error::NegativeFee.text() == "The fee must be zero or positive"@,
        Error::InvalidTransition.text() == "Transition is invalid"@,
        Error::Machinery(reason).text() == reason@,
{
}

} // verus!
